use vstd::prelude::*;

use crate::lexer::reader::{
    consume_tokens, lemma_token_views, peek_tokens, token_views, TokenReader, TokenReaderView,
};
use crate::lexer::token::{KeywordType, OperatorType, Token, TokenView};
use crate::parser::endpoint::{docs_prefix, option_text};
use crate::parser::error::{error_at_last, error_at_token, result_view, ParseError, ParseErrorView};
use crate::parser::field_type::{
    bounds_at, documentation_at, identifier_at, lead_at, lemma_field_type_consumes,
    parse_field_type, spec_parse_field_type, text, Lead, Type, TypeView,
};
use crate::position::Range;

verus! {

/// A field of a custom type.
#[derive(Debug)]
pub struct Field {
    pub documentation: Option<String>,
    pub optional: bool,
    pub identifier: String,
    pub field_type: Type,
}

/// A custom type: a named collection of fields.
#[derive(Debug)]
pub struct CustomType {
    pub range: Range,
    pub documentation: Option<String>,
    pub identifier: String,
    pub fields: Vec<Field>,
}

pub struct FieldView {
    pub documentation: Option<Seq<char>>,
    pub optional: bool,
    pub identifier: Seq<char>,
    pub field_type: TypeView,
}

impl View for Field {
    type V = FieldView;

    open spec fn view(&self) -> FieldView {
        FieldView {
            documentation: option_text(self.documentation),
            optional: self.optional,
            identifier: self.identifier@,
            field_type: self.field_type@,
        }
    }
}

pub open spec fn field_views(fs: Seq<Field>) -> Seq<FieldView> {
    fs.map_values(|f: Field| f@)
}

pub struct CustomTypeView {
    pub range: Range,
    pub documentation: Option<Seq<char>>,
    pub identifier: Seq<char>,
    pub fields: Seq<FieldView>,
}

impl View for CustomType {
    type V = CustomTypeView;

    open spec fn view(&self) -> CustomTypeView {
        CustomTypeView {
            range: self.range,
            documentation: option_text(self.documentation),
            identifier: self.identifier@,
            fields: field_views(self.fields@),
        }
    }
}

/// A field: an optional documentational comment (and a line break behind it),
/// an identifier, an optional `?`, and a type.
pub open spec fn spec_parse_field(v: TokenReaderView) -> (TokenReaderView, Result<
    FieldView,
    ParseErrorView,
>) {
    let (v1, documentation) = match v.tokens[0] {
        TokenView::DocumentationalComment { content, .. } => {
            let w = consume_tokens(v, 1);
            (
                if w.tokens.len() > 0 && w.tokens[0] is LineBreak {
                    consume_tokens(w, 1)
                } else {
                    w
                },
                Some(content),
            )
        },
        _ => (v, None),
    };
    match peek_tokens(v1, 1) {
        None => (v1, Err(error_at_last(v1, "Expected field identifier"@))),
        Some(p) => match p[0] {
            TokenView::Identifier { content, .. } => {
                let v2 = consume_tokens(v1, 1);
                let optional = v2.tokens.len() > 0 && v2.tokens[0] matches TokenView::Operator {
                    operator_type: OperatorType::QuestionMark,
                    ..
                };
                let v3 = if optional {
                    consume_tokens(v2, 1)
                } else {
                    v2
                };
                let (v4, t) = spec_parse_field_type(v3);
                match t {
                    Err(e) => (v4, Err(e)),
                    Ok(t) => (
                        v4,
                        Ok(FieldView { documentation, optional, identifier: content, field_type: t }),
                    ),
                }
            },
            _ => (v1, Err(error_at_token(p[0], "Expected field identifier"@))),
        },
    }
}

pub proof fn lemma_field_consumes(v: TokenReaderView)
    requires
        v.tokens.len() >= 1,
    ensures
        spec_parse_field(v).0.tokens.len() < v.tokens.len() || spec_parse_field(v).1 is Err,
        spec_parse_field(v).0.tokens.len() <= v.tokens.len(),
{
    let w = consume_tokens(v, 1);
    lemma_field_type_consumes(w);
    lemma_field_type_consumes(consume_tokens(w, 1));
    lemma_field_type_consumes(consume_tokens(consume_tokens(w, 1), 1));
    lemma_field_type_consumes(consume_tokens(consume_tokens(consume_tokens(w, 1), 1), 1));
}

/// The fields up to the closing `}`, with line breaks between them; `acc` holds
/// those read so far.
pub open spec fn fields_from(v: TokenReaderView, acc: Seq<FieldView>) -> (
    TokenReaderView,
    Result<Seq<FieldView>, ParseErrorView>,
)
    decreases v.tokens.len(),
{
    match peek_tokens(v, 1) {
        None => (v, Err(error_at_last(v, "Expected closing }"@))),
        Some(p) => match p[0] {
            TokenView::LineBreak { .. } => fields_from(consume_tokens(v, 1), acc),
            TokenView::Operator { operator_type: OperatorType::CurlyCloseBracket, .. } => (
                consume_tokens(v, 1),
                Ok(acc),
            ),
            _ => {
                let (v1, f) = spec_parse_field(v);
                proof {
                    lemma_field_consumes(v);
                }
                match f {
                    Err(e) => (v1, Err(e)),
                    Ok(f) => fields_from(v1, acc.push(f)),
                }
            },
        },
    }
}

pub proof fn lemma_fields_consume(v: TokenReaderView, acc: Seq<FieldView>)
    ensures
        fields_from(v, acc).0.tokens.len() <= v.tokens.len(),
    decreases v.tokens.len(),
{
    if v.tokens.len() > 0 {
        match v.tokens[0] {
            TokenView::LineBreak { .. } => {
                lemma_fields_consume(consume_tokens(v, 1), acc);
            },
            TokenView::Operator { operator_type: OperatorType::CurlyCloseBracket, .. } => {},
            _ => {
                lemma_field_consumes(v);
                let (v1, f) = spec_parse_field(v);
                if let Ok(f) = f {
                    lemma_fields_consume(v1, acc.push(f));
                }
            },
        }
    }
}

/// `parse_custom_type`: `None` (nothing consumed) unless at least four tokens
/// are left and, behind an optional documentational comment (and a line break
/// behind it), the keyword `type` comes. Then an identifier, `{`, the fields and
/// `}` follow; the type reaches from its first token to the closing bracket.
pub open spec fn spec_parse_custom_type(v: TokenReaderView) -> (TokenReaderView, Option<
    Result<CustomTypeView, ParseErrorView>,
>) {
    match peek_tokens(v, 4) {
        None => (v, None),
        Some(p) => {
            let (k, documentation) = docs_prefix(p);
            if !(p[k as int] matches TokenView::Keyword { keyword_type: KeywordType::Type, .. }) {
                (v, None)
            } else {
                let start = p[0].start();
                let v1 = consume_tokens(v, k + 1);
                let t = v1.tokens[0];
                let v2 = consume_tokens(v1, 1);
                match t {
                    TokenView::Identifier { content: identifier, .. } => match peek_tokens(v2, 1) {
                        None => (
                            v2,
                            Some(Err(error_at_last(v2, "Expected an opening { for the type"@))),
                        ),
                        Some(q) => {
                            let b = q[0];
                            let v3 = consume_tokens(v2, 1);
                            if !(b matches TokenView::Operator {
                                operator_type: OperatorType::CurlyOpenBracket,
                                ..
                            }) {
                                (v3, Some(Err(error_at_token(b, "Expected {"@))))
                            } else {
                                let (v4, fs) = fields_from(v3, Seq::empty());
                                match fs {
                                    Err(e) => (v4, Some(Err(e))),
                                    Ok(fields) => (
                                        v4,
                                        Some(
                                            Ok(
                                                CustomTypeView {
                                                    range: Range { start, end: v4.last_end },
                                                    documentation,
                                                    identifier,
                                                    fields,
                                                },
                                            ),
                                        ),
                                    ),
                                }
                            }
                        },
                    },
                    _ => (v2, Some(Err(error_at_token(t, "Expected type identifier"@)))),
                }
            }
        },
    }
}

/// When the tokens do not start a custom type, parsing one consumes nothing; a
/// custom type that was parsed consumed tokens.
pub proof fn law_custom_type_recognition(v: TokenReaderView)
    ensures
        spec_parse_custom_type(v).1 is None ==> spec_parse_custom_type(v).0 == v,
        spec_parse_custom_type(v).1 matches Some(r) && r is Ok ==> spec_parse_custom_type(
            v,
        ).0.tokens.len() < v.tokens.len(),
{
    if v.tokens.len() >= 4 {
        let p = v.tokens.take(4);
        let (k, documentation) = docs_prefix(p);
        let v1 = consume_tokens(v, k + 1);
        let v2 = consume_tokens(v1, 1);
        lemma_fields_consume(consume_tokens(v2, 1), Seq::empty());
    }
}

/// Parses one field of a custom type.
fn parse_field(reader: &mut TokenReader) -> (res: Result<Field, ParseError>)
    requires
        old(reader)@.tokens.len() >= 1,
    ensures
        final(reader)@ == spec_parse_field(old(reader)@).0,
        result_view(res) == spec_parse_field(old(reader)@).1,
{
    let documentation = documentation_at(reader, 0);
    if documentation.is_some() {
        let _ = reader.consume(1);
        match lead_at(reader, 0) {
            Some(Lead::LineBreak) => {
                let _ = reader.consume(1);
            },
            _ => {},
        }
    }
    if lead_at(reader, 0).is_none() {
        return Err(
            ParseError {
                start: *reader.last_token_code_start(),
                end: *reader.last_token_code_end(),
                message: text("Expected field identifier"),
            },
        );
    }
    let identifier = match identifier_at(reader, 0) {
        Some(id) => id,
        None => {
            let (start, end) = bounds_at(reader, 0);
            return Err(ParseError { start, end, message: text("Expected field identifier") });
        },
    };
    let _ = reader.consume(1);
    let optional = match lead_at(reader, 0) {
        Some(Lead::Operator(OperatorType::QuestionMark)) => {
            let _ = reader.consume(1);
            true
        },
        _ => false,
    };
    match parse_field_type(reader) {
        Ok(field_type) => Ok(Field { documentation, optional, identifier, field_type }),
        Err(e) => Err(e),
    }
}

/// Parses the fields up to and including the closing `}`.
fn parse_fields(reader: &mut TokenReader) -> (res: Result<Vec<Field>, ParseError>)
    ensures
        final(reader)@ == fields_from(old(reader)@, Seq::empty()).0,
        match (res, fields_from(old(reader)@, Seq::empty()).1) {
            (Ok(fs), Ok(fvs)) => field_views(fs@) == fvs,
            (Err(e), Err(ev)) => e@ == ev,
            _ => false,
        },
{
    let mut fields: Vec<Field> = Vec::new();
    assert(field_views(fields@) =~= Seq::<FieldView>::empty());
    loop
        invariant
            fields_from(reader@, field_views(fields@)) == fields_from(old(reader)@, Seq::empty()),
        decreases reader@.tokens.len(),
    {
        match lead_at(reader, 0) {
            None => {
                return Err(
                    ParseError {
                        start: *reader.last_token_code_start(),
                        end: *reader.last_token_code_end(),
                        message: text("Expected closing }"),
                    },
                );
            },
            Some(Lead::LineBreak) => {
                let _ = reader.consume(1);
            },
            Some(Lead::Operator(OperatorType::CurlyCloseBracket)) => {
                let _ = reader.consume(1);
                return Ok(fields);
            },
            _ => {
                proof {
                    lemma_field_consumes(reader@);
                }
                match parse_field(reader) {
                    Ok(f) => {
                        let ghost before = fields@;
                        fields.push(f);
                        assert(field_views(fields@) =~= field_views(before).push(fields@.last()@));
                    },
                    Err(e) => {
                        return Err(e);
                    },
                }
            },
        }
    }
}

impl CustomType {
    /// Parses a custom type. Returns `None`, and consumes nothing, when the tokens
    /// do not start one.
    pub fn parse_custom_type(reader: &mut TokenReader) -> (res: Option<Result<CustomType, ParseError>>)
        ensures
            final(reader)@ == spec_parse_custom_type(old(reader)@).0,
            match (res, spec_parse_custom_type(old(reader)@).1) {
                (None, None) => true,
                (Some(r), Some(rv)) => result_view(r) == rv,
                _ => false,
            },
    {
        let ghost v = reader@;
        if lead_at(reader, 3).is_none() {
            return None;
        }
        let documentation = documentation_at(reader, 0);
        let k: usize = if documentation.is_some() {
            match lead_at(reader, 1) {
                Some(Lead::LineBreak) => 2,
                _ => 1,
            }
        } else {
            0
        };
        proof {
            assert(v.tokens.take(4)[0] == v.tokens[0]);
            assert(v.tokens.take(4)[1] == v.tokens[1]);
            assert(v.tokens.take(4)[k as int] == v.tokens[k as int]);
        }
        if !type_keyword_at(reader, k) {
            return None;
        }
        let (start, _) = bounds_at(reader, 0);
        let _ = reader.consume(k + 1);
        let (id_start, id_end) = bounds_at(reader, 0);
        let identifier = identifier_at(reader, 0);
        let _ = reader.consume(1);
        let identifier = match identifier {
            Some(id) => id,
            None => {
                return Some(
                    Err(
                        ParseError {
                            start: id_start,
                            end: id_end,
                            message: text("Expected type identifier"),
                        },
                    ),
                );
            },
        };
        let opening = match lead_at(reader, 0) {
            None => {
                return Some(
                    Err(
                        ParseError {
                            start: *reader.last_token_code_start(),
                            end: *reader.last_token_code_end(),
                            message: text("Expected an opening { for the type"),
                        },
                    ),
                );
            },
            Some(l) => l,
        };
        let (b_start, b_end) = bounds_at(reader, 0);
        let _ = reader.consume(1);
        match opening {
            Lead::Operator(OperatorType::CurlyOpenBracket) => {},
            _ => {
                return Some(Err(ParseError { start: b_start, end: b_end, message: text("Expected {") }));
            },
        }
        let fields = match parse_fields(reader) {
            Ok(fs) => fs,
            Err(e) => {
                return Some(Err(e));
            },
        };
        let end = *reader.last_token_code_end();
        Some(Ok(CustomType { range: Range { start, end }, documentation, identifier, fields }))
    }
}

/// Whether the token at `index` is the keyword `type`.
fn type_keyword_at(reader: &TokenReader, index: usize) -> (res: bool)
    requires
        index < reader@.tokens.len(),
    ensures
        res == (reader@.tokens[index as int] matches TokenView::Keyword {
            keyword_type: KeywordType::Type,
            ..
        }),
{
    let _ = reader.remaining();
    let p = reader.peek(index + 1).unwrap();
    proof {
        lemma_token_views(p@);
        assert(token_views(p@)[index as int] == reader@.tokens.take(index + 1)[index as int]);
    }
    match &p[index] {
        Token::Keyword(k) => k.keyword_type == KeywordType::Type,
        _ => false,
    }
}

} // verus!
