use vstd::prelude::*;

use crate::lexer::reader::{consume_tokens, peek_tokens, TokenReader, TokenReaderView};
use crate::lexer::token::{OperatorType, TokenView};
use crate::parser::error::{error_at_last, error_at_token, result_view, ParseError, ParseErrorView};
use crate::parser::field_type::{
    bounds_at, identifier_at, lead_at, lemma_field_type_consumes, parse_field_type,
    spec_parse_field_type, text, Lead, Type, TypeView,
};
use crate::position::Range;

verus! {

/// A parameter of an endpoint.
#[derive(Debug)]
pub struct Parameter {
    pub optional: bool,
    pub identifier: String,
    pub parameter_type: Type,
}

/// An endpoint: a function of a role that others can call.
#[derive(Debug)]
pub struct Endpoint {
    pub range: Range,
    pub documentation: Option<String>,
    pub identifier: String,
    pub role: String,
    pub parameters: Vec<Parameter>,
    pub return_type: Option<Type>,
    pub middleware_identifiers: Vec<String>,
}

pub struct ParameterView {
    pub optional: bool,
    pub identifier: Seq<char>,
    pub parameter_type: TypeView,
}

impl View for Parameter {
    type V = ParameterView;

    open spec fn view(&self) -> ParameterView {
        ParameterView {
            optional: self.optional,
            identifier: self.identifier@,
            parameter_type: self.parameter_type@,
        }
    }
}

pub open spec fn parameter_views(ps: Seq<Parameter>) -> Seq<ParameterView> {
    ps.map_values(|p: Parameter| p@)
}

pub open spec fn string_views(ss: Seq<String>) -> Seq<Seq<char>> {
    ss.map_values(|s: String| s@)
}

pub open spec fn option_text(o: Option<String>) -> Option<Seq<char>> {
    match o {
        Some(s) => Some(s@),
        None => None,
    }
}

pub open spec fn option_type(o: Option<Type>) -> Option<TypeView> {
    match o {
        Some(t) => Some(t@),
        None => None,
    }
}

pub struct EndpointView {
    pub range: Range,
    pub documentation: Option<Seq<char>>,
    pub identifier: Seq<char>,
    pub role: Seq<char>,
    pub parameters: Seq<ParameterView>,
    pub return_type: Option<TypeView>,
    pub middleware_identifiers: Seq<Seq<char>>,
}

impl View for Endpoint {
    type V = EndpointView;

    open spec fn view(&self) -> EndpointView {
        EndpointView {
            range: self.range,
            documentation: option_text(self.documentation),
            identifier: self.identifier@,
            role: self.role@,
            parameters: parameter_views(self.parameters@),
            return_type: option_type(self.return_type),
            middleware_identifiers: string_views(self.middleware_identifiers@),
        }
    }
}

/// A parameter: an identifier, an optional `?`, and a type.
pub open spec fn spec_parse_parameter(v: TokenReaderView) -> (TokenReaderView, Result<
    ParameterView,
    ParseErrorView,
>) {
    match peek_tokens(v, 2) {
        None => (v, Err(error_at_last(v, "Not enough tokens to form a valid parameter"@))),
        Some(p) => match p[0] {
            TokenView::Identifier { content, .. } => {
                let v1 = consume_tokens(v, 1);
                let (optional, v2) = match p[1] {
                    TokenView::Operator { operator_type: OperatorType::QuestionMark, .. } => (
                        Some(true),
                        consume_tokens(v1, 1),
                    ),
                    TokenView::Operator { .. } => (None, v1),
                    _ => (Some(false), v1),
                };
                match optional {
                    None => (v1, Err(error_at_token(p[1], "Unexpected operator. Only ? is valid here."@))),
                    Some(optional) => {
                        let (v3, t) = spec_parse_field_type(v2);
                        match t {
                            Err(e) => (v3, Err(e)),
                            Ok(t) => (
                                v3,
                                Ok(ParameterView { optional, identifier: content, parameter_type: t }),
                            ),
                        }
                    },
                }
            },
            _ => (v, Err(error_at_token(p[0], "Expected parameter identifier"@))),
        },
    }
}

pub proof fn lemma_parameter_consumes(v: TokenReaderView)
    ensures
        spec_parse_parameter(v).0.tokens.len() <= v.tokens.len(),
        spec_parse_parameter(v).1 is Ok ==> spec_parse_parameter(v).0.tokens.len() < v.tokens.len(),
{
    if v.tokens.len() >= 2 {
        let v1 = consume_tokens(v, 1);
        lemma_field_type_consumes(v1);
        lemma_field_type_consumes(consume_tokens(v1, 1));
    }
}

/// What comes before the next parameter in a parameter list.
pub enum BeforeParameter {
    /// The list is closed; the state behind the closing bracket.
    Closed(TokenReaderView),
    /// The list is broken off with an error.
    Failed(TokenReaderView, ParseErrorView),
    /// A parameter follows; the state in front of it.
    Parameter(TokenReaderView),
}

/// A `)` closes the parameter list; a `,` (and a line break behind it) is
/// skipped, but must not be followed by `)`.
pub open spec fn before_parameter(v: TokenReaderView) -> BeforeParameter {
    match peek_tokens(v, 1) {
        None => BeforeParameter::Failed(
            v,
            error_at_last(v, "Expected more tokens for correct endpoint syntax"@),
        ),
        Some(p) => match p[0] {
            TokenView::Operator { operator_type: OperatorType::CloseBracket, .. } => BeforeParameter::Closed(
                consume_tokens(v, 1),
            ),
            TokenView::Operator { operator_type: OperatorType::Comma, .. } => {
                let v1 = consume_tokens(v, 1);
                match peek_tokens(v1, 1) {
                    Some(n) => match n[0] {
                        TokenView::Operator { operator_type: OperatorType::CloseBracket, .. } => BeforeParameter::Failed(
                            v1,
                            error_at_token(n[0], "Expected parameters instead of closing bracket"@),
                        ),
                        TokenView::LineBreak { .. } => BeforeParameter::Parameter(consume_tokens(v1, 1)),
                        _ => BeforeParameter::Parameter(v1),
                    },
                    None => BeforeParameter::Parameter(v1),
                }
            },
            _ => BeforeParameter::Parameter(v),
        },
    }
}

/// The parameters up to the closing bracket; `acc` holds those read so far.
pub open spec fn parameters_from(v: TokenReaderView, acc: Seq<ParameterView>) -> (
    TokenReaderView,
    Result<Seq<ParameterView>, ParseErrorView>,
)
    decreases v.tokens.len(),
{
    match before_parameter(v) {
        BeforeParameter::Closed(v1) => (v1, Ok(acc)),
        BeforeParameter::Failed(v1, e) => (v1, Err(e)),
        BeforeParameter::Parameter(w) => {
            let (w1, r) = spec_parse_parameter(w);
            proof {
                lemma_parameter_consumes(w);
            }
            match r {
                Err(e) => (w1, Err(e)),
                Ok(p) => parameters_from(w1, acc.push(p)),
            }
        },
    }
}

/// A documentational comment in front of an endpoint (and a line break behind
/// it): how many tokens it takes, and its text.
pub open spec fn docs_prefix(tokens: Seq<TokenView>) -> (nat, Option<Seq<char>>) {
    match tokens[0] {
        TokenView::DocumentationalComment { content, .. } => (
            if tokens[1] is LineBreak {
                2nat
            } else {
                1nat
            },
            Some(content),
        ),
        _ => (0, None),
    }
}

/// Lines `&Identifier` in front of an endpoint, from token `counter` on: where
/// they end, and the identifiers (`acc` holds those read so far).
pub open spec fn middleware_from(tokens: Seq<TokenView>, counter: nat, acc: Seq<Seq<char>>) -> (
    nat,
    Seq<Seq<char>>,
)
    decreases tokens.len() - counter,
{
    if counter + 3 > tokens.len() {
        (counter, acc)
    } else if !(tokens[counter as int] matches TokenView::Operator {
        operator_type: OperatorType::Ampersand,
        ..
    }) {
        (counter, acc)
    } else {
        match tokens[counter + 1 as int] {
            TokenView::Identifier { content, .. } => {
                if tokens[counter + 2 as int] is LineBreak {
                    middleware_from(tokens, counter + 3, acc.push(content))
                } else {
                    (counter, acc)
                }
            },
            _ => (counter, acc),
        }
    }
}

/// When the tokens do not start an endpoint, parsing one consumes nothing; an
/// endpoint that was parsed consumed tokens.
pub proof fn law_endpoint_recognition(v: TokenReaderView)
    ensures
        spec_parse_endpoint(v).1 is None ==> spec_parse_endpoint(v).0 == v,
        spec_parse_endpoint(v).1 matches Some(r) && r is Ok ==> spec_parse_endpoint(v).0.tokens.len()
            < v.tokens.len(),
{
    if peek_tokens(v, 2) is Some {
        let (c0, documentation) = docs_prefix(v.tokens);
        let (c, m) = middleware_from(v.tokens, c0, Seq::empty());
        if c + 4 <= v.tokens.len() {
            let v1 = consume_tokens(v, c + 3);
            lemma_parameters_consume(v1, Seq::empty());
            let v2 = parameters_from(v1, Seq::empty()).0;
            lemma_field_type_consumes(v2);
        }
    }
}

/// A line `&Identifier` (with its line break) starts at token `i`.
pub open spec fn middleware_line_at(tokens: Seq<TokenView>, i: int) -> bool {
    &&& 0 <= i && i + 3 <= tokens.len()
    &&& tokens[i] matches TokenView::Operator { operator_type: OperatorType::Ampersand, .. }
    &&& tokens[i + 1] is Identifier
    &&& tokens[i + 2] is LineBreak
}

/// `m` lines `&Identifier` follow each other from token `d` on.
pub open spec fn middleware_lines(tokens: Seq<TokenView>, d: nat, m: nat) -> bool
    decreases m,
{
    m == 0 || (middleware_line_at(tokens, d as int) && middleware_lines(tokens, d + 3, (m - 1) as nat))
}

/// The tokens start with the head of an endpoint: `d` tokens of an optional
/// documentational comment (with an optional line break behind it), `m` lines
/// `&Identifier`, then a role, an identifier, `(` and at least one more token.
pub open spec fn endpoint_head(tokens: Seq<TokenView>, d: nat, m: nat) -> bool {
    let c = d + 3 * m;
    &&& d == 0 || (d == 1 && tokens[0] is DocumentationalComment) || (d == 2
        && tokens[0] is DocumentationalComment && tokens[1] is LineBreak)
    &&& middleware_lines(tokens, d, m)
    &&& c + 4 <= tokens.len()
    &&& tokens[c as int] is Identifier
    &&& tokens[c + 1 as int] is Identifier
    &&& tokens[c + 2 as int] matches TokenView::Operator { operator_type: OperatorType::OpenBracket, .. }
}

/// Where the lines `&Identifier` from `counter` on end: behind whole lines.
proof fn lemma_middleware_shape(tokens: Seq<TokenView>, counter: nat, acc: Seq<Seq<char>>)
    ensures
        middleware_from(tokens, counter, acc).0 >= counter,
        (middleware_from(tokens, counter, acc).0 - counter) % 3 == 0,
        middleware_lines(
            tokens,
            counter,
            ((middleware_from(tokens, counter, acc).0 - counter) / 3) as nat,
        ),
    decreases tokens.len() - counter,
{
    let c = middleware_from(tokens, counter, acc).0;
    if counter + 3 <= tokens.len() && tokens[counter as int] matches TokenView::Operator {
        operator_type: OperatorType::Ampersand,
        ..
    } {
        if let TokenView::Identifier { content, .. } = tokens[counter + 1 as int] {
            if tokens[counter + 2 as int] is LineBreak {
                lemma_middleware_shape(tokens, counter + 3, acc.push(content));
                let m = ((c - counter) / 3) as nat;
                assert(m >= 1 && ((c - (counter + 3)) / 3) as nat == (m - 1) as nat);
                assert(middleware_line_at(tokens, counter as int));
            }
        }
    }
}

/// The lines `&Identifier` from `d` on are all taken when a role follows them.
proof fn lemma_middleware_stops(tokens: Seq<TokenView>, d: nat, m: nat, acc: Seq<Seq<char>>)
    requires
        middleware_lines(tokens, d, m),
        d + 3 * m < tokens.len(),
        tokens[d + 3 * m as int] is Identifier,
    ensures
        middleware_from(tokens, d, acc).0 == d + 3 * m,
    decreases m,
{
    if m > 0 {
        let content = tokens[d + 1 as int]->Identifier_content;
        lemma_middleware_stops(tokens, d + 3, (m - 1) as nat, acc.push(content));
    }
}

/// Parsing an endpoint answers nothing exactly when the tokens do not start with
/// the head of an endpoint (an optional documentational comment, lines
/// `&Identifier`, a role, an identifier, `(` and one more token), and then it
/// consumes nothing.
pub proof fn law_endpoint_answers_nothing(v: TokenReaderView)
    ensures
        spec_parse_endpoint(v).1 is None <==> !(exists|d: nat, m: nat| endpoint_head(v.tokens, d, m)),
        spec_parse_endpoint(v).1 is None ==> spec_parse_endpoint(v).0 == v,
{
    law_endpoint_recognition(v);
    let tokens = v.tokens;
    if exists|d: nat, m: nat| endpoint_head(tokens, d, m) {
        let (d, m) = choose|d: nat, m: nat| endpoint_head(tokens, d, m);
        assert(docs_prefix(tokens).0 == d) by {
            if m > 0 {
                assert(middleware_line_at(tokens, d as int));
            }
        }
        lemma_middleware_stops(tokens, d, m, Seq::empty());
    } else if peek_tokens(v, 2) is Some {
        let c0 = docs_prefix(tokens).0;
        lemma_middleware_shape(tokens, c0, Seq::empty());
        let c = middleware_from(tokens, c0, Seq::empty()).0;
        let m = ((c - c0) / 3) as nat;
        assert(c == c0 + 3 * m);
        assert(!endpoint_head(tokens, c0, m));
    }
}

/// The return type behind the parameter list, unless a line break or nothing follows.
pub open spec fn return_type_part(v: TokenReaderView) -> (TokenReaderView, Result<
    Option<TypeView>,
    ParseErrorView,
>) {
    match peek_tokens(v, 1) {
        None => (v, Ok(None)),
        Some(p) => {
            if p[0] is LineBreak {
                (v, Ok(None))
            } else {
                let (v1, t) = spec_parse_field_type(v);
                match t {
                    Err(e) => (v1, Err(e)),
                    Ok(t) => (v1, Ok(Some(t))),
                }
            }
        },
    }
}

/// `parse_endpoint`: `None` (nothing consumed) unless the tokens start with an
/// optional documentational comment, optional middleware lines, a role, an
/// identifier and `(`, with at least one more token. Then the parameters and the
/// optional return type are parsed; the endpoint reaches from its first token to
/// the last consumed one.
pub open spec fn spec_parse_endpoint(v: TokenReaderView) -> (TokenReaderView, Option<
    Result<EndpointView, ParseErrorView>,
>) {
    if peek_tokens(v, 2) is None {
        (v, None)
    } else {
        let (c0, documentation) = docs_prefix(v.tokens);
        let (c, middleware_identifiers) = middleware_from(v.tokens, c0, Seq::empty());
        if c + 4 > v.tokens.len() {
            (v, None)
        } else {
            match (v.tokens[c as int], v.tokens[c + 1 as int], v.tokens[c + 2 as int]) {
                (
                    TokenView::Identifier { content: role, .. },
                    TokenView::Identifier { content: identifier, .. },
                    TokenView::Operator { operator_type: OperatorType::OpenBracket, .. },
                ) => {
                    let start = v.tokens[0].start();
                    let v1 = consume_tokens(v, c + 3);
                    let (v2, params) = parameters_from(v1, Seq::empty());
                    match params {
                        Err(e) => (v2, Some(Err(e))),
                        Ok(parameters) => {
                            let (v3, ret) = return_type_part(v2);
                            match ret {
                                Err(e) => (v3, Some(Err(e))),
                                Ok(return_type) => (
                                    v3,
                                    Some(
                                        Ok(
                                            EndpointView {
                                                range: Range { start, end: v3.last_end },
                                                documentation,
                                                identifier,
                                                role,
                                                parameters,
                                                return_type,
                                                middleware_identifiers,
                                            },
                                        ),
                                    ),
                                ),
                            }
                        },
                    }
                },
                _ => (v, None),
            }
        }
    }
}

pub proof fn lemma_parameters_consume(v: TokenReaderView, acc: Seq<ParameterView>)
    ensures
        parameters_from(v, acc).0.tokens.len() <= v.tokens.len(),
    decreases v.tokens.len(),
{
    match before_parameter(v) {
        BeforeParameter::Parameter(w) => {
            lemma_parameter_consumes(w);
            let (w1, r) = spec_parse_parameter(w);
            if let Ok(p) = r {
                lemma_parameters_consume(w1, acc.push(p));
            }
        },
        _ => {},
    }
}

/// Parses one parameter of an endpoint.
fn parse_endpoint_parameter(reader: &mut TokenReader) -> (res: Result<Parameter, ParseError>)
    ensures
        final(reader)@ == spec_parse_parameter(old(reader)@).0,
        result_view(res) == spec_parse_parameter(old(reader)@).1,
{
    if lead_at(reader, 1).is_none() {
        return Err(
            ParseError {
                start: *reader.last_token_code_start(),
                end: *reader.last_token_code_end(),
                message: text("Not enough tokens to form a valid parameter"),
            },
        );
    }
    let identifier = match identifier_at(reader, 0) {
        Some(id) => id,
        None => {
            let (start, end) = bounds_at(reader, 0);
            return Err(ParseError { start, end, message: text("Expected parameter identifier") });
        },
    };
    let second = lead_at(reader, 1);
    let (second_start, second_end) = bounds_at(reader, 1);
    let _ = reader.consume(1);
    let optional = match second {
        Some(Lead::Operator(OperatorType::QuestionMark)) => {
            let _ = reader.consume(1);
            true
        },
        Some(Lead::Operator(_)) => {
            return Err(
                ParseError {
                    start: second_start,
                    end: second_end,
                    message: text("Unexpected operator. Only ? is valid here."),
                },
            );
        },
        _ => false,
    };
    match parse_field_type(reader) {
        Ok(parameter_type) => Ok(Parameter { optional, identifier, parameter_type }),
        Err(e) => Err(e),
    }
}

/// Parses the parameters up to and including the closing bracket.
fn parse_parameters(reader: &mut TokenReader) -> (res: Result<Vec<Parameter>, ParseError>)
    ensures
        final(reader)@ == parameters_from(old(reader)@, Seq::empty()).0,
        match (res, parameters_from(old(reader)@, Seq::empty()).1) {
            (Ok(ps), Ok(pvs)) => parameter_views(ps@) == pvs,
            (Err(e), Err(ev)) => e@ == ev,
            _ => false,
        },
{
    let mut parameters: Vec<Parameter> = Vec::new();
    assert(parameter_views(parameters@) =~= Seq::<ParameterView>::empty());
    loop
        invariant
            parameters_from(reader@, parameter_views(parameters@)) == parameters_from(
                old(reader)@,
                Seq::empty(),
            ),
        decreases reader@.tokens.len(),
    {
        let ghost v = reader@;
        match lead_at(reader, 0) {
            None => {
                return Err(
                    ParseError {
                        start: *reader.last_token_code_start(),
                        end: *reader.last_token_code_end(),
                        message: text("Expected more tokens for correct endpoint syntax"),
                    },
                );
            },
            Some(Lead::Operator(OperatorType::CloseBracket)) => {
                let _ = reader.consume(1);
                return Ok(parameters);
            },
            Some(Lead::Operator(OperatorType::Comma)) => {
                let _ = reader.consume(1);
                match lead_at(reader, 0) {
                    Some(Lead::Operator(OperatorType::CloseBracket)) => {
                        let (start, end) = bounds_at(reader, 0);
                        return Err(
                            ParseError {
                                start,
                                end,
                                message: text("Expected parameters instead of closing bracket"),
                            },
                        );
                    },
                    Some(Lead::LineBreak) => {
                        let _ = reader.consume(1);
                    },
                    _ => {},
                }
            },
            _ => {},
        }
        assert(before_parameter(v) == BeforeParameter::Parameter(reader@));
        proof {
            lemma_parameter_consumes(reader@);
        }
        match parse_endpoint_parameter(reader) {
            Ok(p) => {
                let ghost before = parameters@;
                parameters.push(p);
                assert(parameter_views(parameters@) =~= parameter_views(before).push(
                    parameters@.last()@,
                ));
            },
            Err(e) => {
                return Err(e);
            },
        }
    }
}

impl Endpoint {
    /// Parses an endpoint. Returns `None`, and consumes nothing, when the tokens do
    /// not start an endpoint.
    pub fn parse_endpoint(reader: &mut TokenReader) -> (res: Option<Result<Endpoint, ParseError>>)
        ensures
            final(reader)@ == spec_parse_endpoint(old(reader)@).0,
            match (res, spec_parse_endpoint(old(reader)@).1) {
                (None, None) => true,
                (Some(r), Some(rv)) => result_view(r) == rv,
                _ => false,
            },
    {
        let ghost v = reader@;
        if lead_at(reader, 1).is_none() {
            return None;
        }
        let mut counter: usize = 0;
        let mut documentation: Option<String> = None;
        match crate::parser::field_type::documentation_at(reader, 0) {
            Some(doc) => {
                documentation = Some(doc);
                counter = match lead_at(reader, 1) {
                    Some(Lead::LineBreak) => 2,
                    _ => 1,
                };
            },
            None => {},
        }
        assert(docs_prefix(v.tokens) == (counter as nat, option_text(documentation)));
        let ghost c0 = counter as nat;
        let mut middleware_identifiers: Vec<String> = Vec::new();
        assert(string_views(middleware_identifiers@) =~= Seq::<Seq<char>>::empty());
        let _ = reader.remaining();
        loop
            invariant_except_break
                reader@ == v,
                v.tokens.len() <= usize::MAX,
                counter <= v.tokens.len(),
                middleware_from(v.tokens, counter as nat, string_views(middleware_identifiers@))
                    == middleware_from(v.tokens, c0, Seq::empty()),
            ensures
                reader@ == v,
                counter <= v.tokens.len(),
                middleware_from(v.tokens, c0, Seq::empty()) == (
                    counter as nat,
                    string_views(middleware_identifiers@),
                ),
            decreases v.tokens.len() - counter,
        {
            if counter > usize::MAX - 3 || lead_at(reader, counter + 2).is_none() {
                break;
            }
            match lead_at(reader, counter) {
                Some(Lead::Operator(OperatorType::Ampersand)) => {},
                _ => {
                    break;
                },
            }
            let name = match identifier_at(reader, counter + 1) {
                Some(name) => name,
                None => {
                    break;
                },
            };
            match lead_at(reader, counter + 2) {
                Some(Lead::LineBreak) => {},
                _ => {
                    break;
                },
            }
            let ghost before = middleware_identifiers@;
            middleware_identifiers.push(name);
            assert(string_views(middleware_identifiers@) =~= string_views(before).push(
                middleware_identifiers@.last()@,
            ));
            counter = counter + 3;
        }
        if counter > usize::MAX - 4 || lead_at(reader, counter + 3).is_none() {
            return None;
        }
        let role = match identifier_at(reader, counter) {
            Some(r) => r,
            None => {
                return None;
            },
        };
        let identifier = match identifier_at(reader, counter + 1) {
            Some(i) => i,
            None => {
                return None;
            },
        };
        match lead_at(reader, counter + 2) {
            Some(Lead::Operator(OperatorType::OpenBracket)) => {},
            _ => {
                return None;
            },
        }
        let (start, _) = bounds_at(reader, 0);
        let _ = reader.consume(counter + 3);
        let parameters = match parse_parameters(reader) {
            Ok(ps) => ps,
            Err(e) => {
                return Some(Err(e));
            },
        };
        let return_type = match lead_at(reader, 0) {
            None => None,
            Some(Lead::LineBreak) => None,
            _ => match parse_field_type(reader) {
                Ok(t) => Some(t),
                Err(e) => {
                    return Some(Err(e));
                },
            },
        };
        let end = *reader.last_token_code_end();
        Some(
            Ok(
                Endpoint {
                    range: Range { start, end },
                    documentation,
                    identifier,
                    role,
                    parameters,
                    return_type,
                    middleware_identifiers,
                },
            ),
        )
    }
}

} // verus!
