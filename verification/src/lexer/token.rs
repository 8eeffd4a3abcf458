use vstd::prelude::*;

use crate::position::CodePosition;

verus! {

/// Keywords are predefined words which the parser knows.
#[derive(Clone, Copy, Debug, PartialEq, Eq, Structural)]
pub enum KeywordType {
    Type,
    Boolean,
    Int8,
    Int16,
    Int32,
    Int64,
    Float32,
    Float64,
    String,
    Int,
    Float,
}

/// Operators are mostly single characters used to syntactically indicate various things.
#[derive(Clone, Copy, Debug, PartialEq, Eq, Structural)]
pub enum OperatorType {
    Pipe,
    CurlyOpenBracket,
    CurlyCloseBracket,
    OpenBracket,
    CloseBracket,
    SquareOpenBracket,
    SquareCloseBracket,
    Comma,
    QuestionMark,
    Ampersand,
}

/// Literals are fixed values typed out in the source code. A floating point
/// literal holds text: the lexer puts there the text it was written with, and
/// the generation of a source tree replaces it by the printed form of the
/// number (see `SourceFile::float_texts`) before the code is generated.
#[derive(Debug)]
pub enum LiteralType {
    Boolean(bool),
    String(String),
    Float(String),
    Integer(i32),
}

/// A comment which can be ignored.
#[derive(Debug)]
pub struct DisposeableComment {
    pub content: String,
    pub start: CodePosition,
    pub end: CodePosition,
}

/// A documentational comment which can be used to document something.
#[derive(Debug)]
pub struct DocumentationalComment {
    pub content: String,
    pub start: CodePosition,
    pub end: CodePosition,
}

impl DocumentationalComment {
    /// The text between the comment's delimiters.
    pub fn get_content(&self) -> (res: &String)
        ensures
            res@ == self.content@,
    {
        &self.content
    }

    /// Where the comment starts.
    pub fn get_start(&self) -> (res: &CodePosition)
        ensures
            *res == self.start,
    {
        &self.start
    }

    /// Where the comment ends.
    pub fn get_end(&self) -> (res: &CodePosition)
        ensures
            *res == self.end,
    {
        &self.end
    }
}

impl DisposeableComment {
    /// The text of the comment, without its opening (and without `*/`).
    pub fn get_content(&self) -> (res: &String)
        ensures
            res@ == self.content@,
    {
        &self.content
    }

    /// Where the comment starts.
    pub fn get_start(&self) -> (res: &CodePosition)
        ensures
            *res == self.start,
    {
        &self.start
    }

    /// Where the comment ends.
    pub fn get_end(&self) -> (res: &CodePosition)
        ensures
            *res == self.end,
    {
        &self.end
    }
}

/// An identifier for various elements inside the source code.
#[derive(Debug)]
pub struct Identifier {
    pub content: String,
    pub start: CodePosition,
    pub end: CodePosition,
}

/// Characters which the lexer does not know; a fallback to handle invalid syntax.
#[derive(Debug)]
pub struct InvalidCharacters {
    pub content: String,
    pub start: CodePosition,
    pub end: CodePosition,
}

/// A keyword token.
#[derive(Debug)]
pub struct Keyword {
    pub keyword_type: KeywordType,
    pub start: CodePosition,
    pub end: CodePosition,
}

/// One or more line breaks in a row.
#[derive(Debug)]
pub struct LineBreak {
    pub start: CodePosition,
    pub end: CodePosition,
}

/// A literal token.
#[derive(Debug)]
pub struct Literal {
    pub literal_type: LiteralType,
    pub start: CodePosition,
    pub end: CodePosition,
}

impl Literal {
    /// The kind and value of the literal.
    pub fn get_type(&self) -> (res: &LiteralType)
        ensures
            res@ == self.literal_type@,
    {
        &self.literal_type
    }

    /// Where the literal starts.
    pub fn get_start(&self) -> (res: &CodePosition)
        ensures
            *res == self.start,
    {
        &self.start
    }

    /// Where the literal ends.
    pub fn get_end(&self) -> (res: &CodePosition)
        ensures
            *res == self.end,
    {
        &self.end
    }
}

/// An operator token.
#[derive(Debug)]
pub struct Operator {
    pub operator_type: OperatorType,
    pub start: CodePosition,
    pub end: CodePosition,
}

/// A token is a lexer result element and represents a piece of code which has a meaning.
#[derive(Debug)]
pub enum Token {
    DisposeableComment(DisposeableComment),
    DocumentationalComment(DocumentationalComment),
    Identifier(Identifier),
    InvalidCharacters(InvalidCharacters),
    Keyword(Keyword),
    LineBreak(LineBreak),
    Literal(Literal),
    Operator(Operator),
}

impl From<DisposeableComment> for Token {
    fn from(el: DisposeableComment) -> (res: Token) {
        Token::DisposeableComment(el)
    }
}

impl vstd::std_specs::convert::FromSpecImpl<DisposeableComment> for Token {
    open spec fn obeys_from_spec() -> bool {
        true
    }

    open spec fn from_spec(el: DisposeableComment) -> Token {
        Token::DisposeableComment(el)
    }
}

impl From<DocumentationalComment> for Token {
    fn from(el: DocumentationalComment) -> (res: Token) {
        Token::DocumentationalComment(el)
    }
}

impl vstd::std_specs::convert::FromSpecImpl<DocumentationalComment> for Token {
    open spec fn obeys_from_spec() -> bool {
        true
    }

    open spec fn from_spec(el: DocumentationalComment) -> Token {
        Token::DocumentationalComment(el)
    }
}

impl From<Identifier> for Token {
    fn from(el: Identifier) -> (res: Token) {
        Token::Identifier(el)
    }
}

impl vstd::std_specs::convert::FromSpecImpl<Identifier> for Token {
    open spec fn obeys_from_spec() -> bool {
        true
    }

    open spec fn from_spec(el: Identifier) -> Token {
        Token::Identifier(el)
    }
}

impl From<InvalidCharacters> for Token {
    fn from(el: InvalidCharacters) -> (res: Token) {
        Token::InvalidCharacters(el)
    }
}

impl vstd::std_specs::convert::FromSpecImpl<InvalidCharacters> for Token {
    open spec fn obeys_from_spec() -> bool {
        true
    }

    open spec fn from_spec(el: InvalidCharacters) -> Token {
        Token::InvalidCharacters(el)
    }
}

impl From<Keyword> for Token {
    fn from(el: Keyword) -> (res: Token) {
        Token::Keyword(el)
    }
}

impl vstd::std_specs::convert::FromSpecImpl<Keyword> for Token {
    open spec fn obeys_from_spec() -> bool {
        true
    }

    open spec fn from_spec(el: Keyword) -> Token {
        Token::Keyword(el)
    }
}

impl From<LineBreak> for Token {
    fn from(el: LineBreak) -> (res: Token) {
        Token::LineBreak(el)
    }
}

impl vstd::std_specs::convert::FromSpecImpl<LineBreak> for Token {
    open spec fn obeys_from_spec() -> bool {
        true
    }

    open spec fn from_spec(el: LineBreak) -> Token {
        Token::LineBreak(el)
    }
}

impl From<Literal> for Token {
    fn from(el: Literal) -> (res: Token) {
        Token::Literal(el)
    }
}

impl vstd::std_specs::convert::FromSpecImpl<Literal> for Token {
    open spec fn obeys_from_spec() -> bool {
        true
    }

    open spec fn from_spec(el: Literal) -> Token {
        Token::Literal(el)
    }
}

impl From<Operator> for Token {
    fn from(el: Operator) -> (res: Token) {
        Token::Operator(el)
    }
}

impl vstd::std_specs::convert::FromSpecImpl<Operator> for Token {
    open spec fn obeys_from_spec() -> bool {
        true
    }

    open spec fn from_spec(el: Operator) -> Token {
        Token::Operator(el)
    }
}

/// The value of a literal, with texts as character sequences.
pub enum LiteralView {
    Boolean(bool),
    String(Seq<char>),
    Float(Seq<char>),
    Integer(i32),
}

impl View for LiteralType {
    type V = LiteralView;

    open spec fn view(&self) -> LiteralView {
        match self {
            LiteralType::Boolean(b) => LiteralView::Boolean(*b),
            LiteralType::String(s) => LiteralView::String(s@),
            LiteralType::Float(s) => LiteralView::Float(s@),
            LiteralType::Integer(i) => LiteralView::Integer(*i),
        }
    }
}

/// A token with texts as character sequences.
pub enum TokenView {
    DisposeableComment { content: Seq<char>, start: CodePosition, end: CodePosition },
    DocumentationalComment { content: Seq<char>, start: CodePosition, end: CodePosition },
    Identifier { content: Seq<char>, start: CodePosition, end: CodePosition },
    InvalidCharacters { content: Seq<char>, start: CodePosition, end: CodePosition },
    Keyword { keyword_type: KeywordType, start: CodePosition, end: CodePosition },
    LineBreak { start: CodePosition, end: CodePosition },
    Literal { literal_type: LiteralView, start: CodePosition, end: CodePosition },
    Operator { operator_type: OperatorType, start: CodePosition, end: CodePosition },
}

impl TokenView {
    pub open spec fn start(self) -> CodePosition {
        match self {
            TokenView::DisposeableComment { start, .. } => start,
            TokenView::DocumentationalComment { start, .. } => start,
            TokenView::Identifier { start, .. } => start,
            TokenView::InvalidCharacters { start, .. } => start,
            TokenView::Keyword { start, .. } => start,
            TokenView::LineBreak { start, .. } => start,
            TokenView::Literal { start, .. } => start,
            TokenView::Operator { start, .. } => start,
        }
    }

    pub open spec fn end(self) -> CodePosition {
        match self {
            TokenView::DisposeableComment { end, .. } => end,
            TokenView::DocumentationalComment { end, .. } => end,
            TokenView::Identifier { end, .. } => end,
            TokenView::InvalidCharacters { end, .. } => end,
            TokenView::Keyword { end, .. } => end,
            TokenView::LineBreak { end, .. } => end,
            TokenView::Literal { end, .. } => end,
            TokenView::Operator { end, .. } => end,
        }
    }
}

impl View for Token {
    type V = TokenView;

    open spec fn view(&self) -> TokenView {
        match self {
            Token::DisposeableComment(t) => TokenView::DisposeableComment {
                content: t.content@,
                start: t.start,
                end: t.end,
            },
            Token::DocumentationalComment(t) => TokenView::DocumentationalComment {
                content: t.content@,
                start: t.start,
                end: t.end,
            },
            Token::Identifier(t) => TokenView::Identifier {
                content: t.content@,
                start: t.start,
                end: t.end,
            },
            Token::InvalidCharacters(t) => TokenView::InvalidCharacters {
                content: t.content@,
                start: t.start,
                end: t.end,
            },
            Token::Keyword(t) => TokenView::Keyword {
                keyword_type: t.keyword_type,
                start: t.start,
                end: t.end,
            },
            Token::LineBreak(t) => TokenView::LineBreak { start: t.start, end: t.end },
            Token::Literal(t) => TokenView::Literal {
                literal_type: t.literal_type@,
                start: t.start,
                end: t.end,
            },
            Token::Operator(t) => TokenView::Operator {
                operator_type: t.operator_type,
                start: t.start,
                end: t.end,
            },
        }
    }
}

impl Token {
    /// Where the token starts.
    pub fn start(&self) -> (res: CodePosition)
        ensures
            res == self@.start(),
    {
        match self {
            Token::DisposeableComment(value) => value.start,
            Token::DocumentationalComment(value) => value.start,
            Token::Identifier(value) => value.start,
            Token::InvalidCharacters(value) => value.start,
            Token::Keyword(value) => value.start,
            Token::LineBreak(value) => value.start,
            Token::Literal(value) => value.start,
            Token::Operator(value) => value.start,
        }
    }

    /// Where the token ends.
    pub fn end(&self) -> (res: CodePosition)
        ensures
            res == self@.end(),
    {
        match self {
            Token::DisposeableComment(value) => value.end,
            Token::DocumentationalComment(value) => value.end,
            Token::Identifier(value) => value.end,
            Token::InvalidCharacters(value) => value.end,
            Token::Keyword(value) => value.end,
            Token::LineBreak(value) => value.end,
            Token::Literal(value) => value.end,
            Token::Operator(value) => value.end,
        }
    }
}

/// What a lexing step produced: an input error, nothing, or a token.
pub enum Lexed {
    Failed,
    Absent,
    Found(TokenView),
}

} // verus!
