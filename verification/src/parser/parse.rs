use vstd::prelude::*;

use crate::lexer::reader::{consume_tokens, TokenReader, TokenReaderView};
use crate::lexer::token::{DisposeableComment, LineBreak, Token};
use crate::parser::custom_type::{
    law_custom_type_recognition, spec_parse_custom_type, CustomType, CustomTypeView,
};
use crate::parser::endpoint::{law_endpoint_recognition, spec_parse_endpoint, Endpoint, EndpointView};
use crate::parser::error::{error_at_token, ParseError, ParseErrorView};
use crate::parser::field_type::{bounds_at, lead_at, take_token, text, Lead};

verus! {

/// The endpoints and custom types of a source.
#[derive(Debug)]
pub struct ParseResult {
    pub endpoints: Vec<Endpoint>,
    pub custom_types: Vec<CustomType>,
}

pub open spec fn endpoint_views(es: Seq<Endpoint>) -> Seq<EndpointView> {
    es.map_values(|e: Endpoint| e@)
}

pub open spec fn custom_type_views(cs: Seq<CustomType>) -> Seq<CustomTypeView> {
    cs.map_values(|c: CustomType| c@)
}

/// The definitions of a source, from the current token on; `endpoints` and
/// `custom_types` hold those read so far. Disposeable comments and line breaks
/// between definitions are skipped; a token that starts no definition is an
/// error.
pub open spec fn parse_from(
    v: TokenReaderView,
    endpoints: Seq<EndpointView>,
    custom_types: Seq<CustomTypeView>,
) -> (TokenReaderView, Result<(Seq<EndpointView>, Seq<CustomTypeView>), ParseErrorView>)
    decreases v.tokens.len(),
{
    if v.tokens.len() == 0 {
        (v, Ok((endpoints, custom_types)))
    } else if v.tokens[0] is DisposeableComment || v.tokens[0] is LineBreak {
        parse_from(consume_tokens(v, 1), endpoints, custom_types)
    } else {
        let (v1, e) = spec_parse_endpoint(v);
        proof {
            law_endpoint_recognition(v);
        }
        match e {
            Some(Ok(endpoint)) => parse_from(v1, endpoints.push(endpoint), custom_types),
            Some(Err(err)) => (v1, Err(err)),
            None => {
                let (v2, c) = spec_parse_custom_type(v);
                proof {
                    law_custom_type_recognition(v);
                }
                match c {
                    Some(Ok(custom_type)) => parse_from(v2, endpoints, custom_types.push(custom_type)),
                    Some(Err(err)) => (v2, Err(err)),
                    None => (v, Err(error_at_token(v.tokens[0], "Unexpected token"@))),
                }
            },
        }
    }
}

/// `parse`: all definitions of the source.
pub open spec fn spec_parse(v: TokenReaderView) -> (TokenReaderView, Result<
    (Seq<EndpointView>, Seq<CustomTypeView>),
    ParseErrorView,
>) {
    parse_from(v, Seq::empty(), Seq::empty())
}

proof fn lemma_parse_from_reads_everything(
    v: TokenReaderView,
    endpoints: Seq<EndpointView>,
    custom_types: Seq<CustomTypeView>,
)
    ensures
        parse_from(v, endpoints, custom_types).1 is Ok ==> parse_from(v, endpoints, custom_types).0.tokens.len()
            == 0,
    decreases v.tokens.len(),
{
    if v.tokens.len() > 0 {
        if v.tokens[0] is DisposeableComment || v.tokens[0] is LineBreak {
            lemma_parse_from_reads_everything(consume_tokens(v, 1), endpoints, custom_types);
        } else {
            law_endpoint_recognition(v);
            law_custom_type_recognition(v);
            let (v1, e) = spec_parse_endpoint(v);
            match e {
                Some(Ok(endpoint)) => {
                    lemma_parse_from_reads_everything(v1, endpoints.push(endpoint), custom_types);
                },
                Some(Err(_)) => {},
                None => {
                    let (v2, c) = spec_parse_custom_type(v);
                    if let Some(Ok(custom_type)) = c {
                        lemma_parse_from_reads_everything(v2, endpoints, custom_types.push(custom_type));
                    }
                },
            }
        }
    }
}

/// A source that parses without error is read to its end: every token belongs
/// to a definition, or is a disposeable comment or a line break between them.
pub proof fn law_parse_reads_everything(v: TokenReaderView)
    ensures
        spec_parse(v).1 is Ok ==> spec_parse(v).0.tokens.len() == 0,
{
    lemma_parse_from_reads_everything(v, Seq::empty(), Seq::empty());
}

impl DisposeableComment {
    /// Consumes a disposeable comment token, if one is next.
    pub fn skip_disposeable_comment(reader: &mut TokenReader) -> (res: Option<DisposeableComment>)
        ensures
            old(reader)@.tokens.len() > 0 && old(reader)@.tokens[0] is DisposeableComment ==> (res matches Some(c)
                && Token::DisposeableComment(c)@ == old(reader)@.tokens[0] && final(reader)@
                == consume_tokens(old(reader)@, 1)),
            !(old(reader)@.tokens.len() > 0 && old(reader)@.tokens[0] is DisposeableComment) ==> res is None
                && final(reader)@ == old(reader)@,
    {
        match lead_at(reader, 0) {
            Some(Lead::DisposeableComment) => match take_token(reader) {
                Token::DisposeableComment(c) => Some(c),
                _ => None,
            },
            _ => None,
        }
    }
}

impl LineBreak {
    /// Consumes a line break token, if one is next.
    pub fn skip_line_break(reader: &mut TokenReader) -> (res: Option<LineBreak>)
        ensures
            old(reader)@.tokens.len() > 0 && old(reader)@.tokens[0] is LineBreak ==> (res matches Some(l)
                && Token::LineBreak(l)@ == old(reader)@.tokens[0] && final(reader)@ == consume_tokens(
                old(reader)@,
                1,
            )),
            !(old(reader)@.tokens.len() > 0 && old(reader)@.tokens[0] is LineBreak) ==> res is None
                && final(reader)@ == old(reader)@,
    {
        match lead_at(reader, 0) {
            Some(Lead::LineBreak) => match take_token(reader) {
                Token::LineBreak(l) => Some(l),
                _ => None,
            },
            _ => None,
        }
    }
}

/// Parses all endpoints and custom types of a source.
pub fn parse(reader: &mut TokenReader) -> (res: Result<ParseResult, ParseError>)
    ensures
        final(reader)@ == spec_parse(old(reader)@).0,
        match (res, spec_parse(old(reader)@).1) {
            (Ok(r), Ok((es, cs))) => endpoint_views(r.endpoints@) == es && custom_type_views(
                r.custom_types@,
            ) == cs,
            (Err(e), Err(ev)) => e@ == ev,
            _ => false,
        },
{
    let mut ret = ParseResult { endpoints: Vec::new(), custom_types: Vec::new() };
    assert(endpoint_views(ret.endpoints@) =~= Seq::<EndpointView>::empty());
    assert(custom_type_views(ret.custom_types@) =~= Seq::<CustomTypeView>::empty());
    loop
        invariant
            parse_from(
                reader@,
                endpoint_views(ret.endpoints@),
                custom_type_views(ret.custom_types@),
            ) == spec_parse(old(reader)@),
        decreases reader@.tokens.len(),
    {
        if reader.is_done() {
            return Ok(ret);
        }
        if DisposeableComment::skip_disposeable_comment(reader).is_some() {
            continue ;
        }
        if LineBreak::skip_line_break(reader).is_some() {
            continue ;
        }
        let ghost v = reader@;
        proof {
            law_endpoint_recognition(v);
            law_custom_type_recognition(v);
        }
        match Endpoint::parse_endpoint(reader) {
            Some(Ok(endpoint)) => {
                let ghost before = ret.endpoints@;
                ret.endpoints.push(endpoint);
                assert(endpoint_views(ret.endpoints@) =~= endpoint_views(before).push(
                    ret.endpoints@.last()@,
                ));
                continue ;
            },
            Some(Err(err)) => {
                return Err(err);
            },
            None => {},
        }
        match CustomType::parse_custom_type(reader) {
            Some(Ok(custom_type)) => {
                let ghost before = ret.custom_types@;
                ret.custom_types.push(custom_type);
                assert(custom_type_views(ret.custom_types@) =~= custom_type_views(before).push(
                    ret.custom_types@.last()@,
                ));
            },
            Some(Err(err)) => {
                return Err(err);
            },
            None => {
                let (start, end) = bounds_at(reader, 0);
                return Err(ParseError { start, end, message: text("Unexpected token") });
            },
        }
    }
}

} // verus!
