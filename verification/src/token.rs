//! The token trees that the converter reads, and the tokens it makes of them.
use vstd::prelude::*;
use crate::literal::{LiteralClass, literal_class};

verus! {

/// The delimiter of a group of token trees.
#[derive(Debug, Clone, Copy, PartialEq, Eq, Structural)]
pub enum Delimiter {
    Parenthesis,
    Brace,
    Bracket,
    /// An invisible delimiter.
    Invisible,
}

/// A position in the source: a line and a column.
#[derive(Debug, Clone, Copy, PartialEq, Eq, Structural)]
pub struct LineColumn {
    pub line: usize,
    pub column: usize,
}

/// The region of the source that a token tree covers.
#[derive(Debug, Clone, Copy, PartialEq, Eq, Structural)]
pub struct Span {
    pub start: LineColumn,
    pub end: LineColumn,
}

/// What kind of token tree a tree is.
#[derive(Debug, Clone, Copy, PartialEq, Eq, Structural)]
pub enum TreeKind {
    Ident,
    Punct(char),
    Literal,
    Group(Delimiter),
}

/// A token tree of the input: its kind, its text as the compiler prints it,
/// and its span.
#[derive(Debug)]
pub struct SourceTree {
    pub kind: TreeKind,
    pub text: String,
    pub span: Span,
}

/// The value of a token tree.
pub struct SourceTreeView {
    pub kind: TreeKind,
    pub text: Seq<char>,
    pub span: Span,
}

impl View for SourceTree {
    type V = SourceTreeView;

    open spec fn view(&self) -> SourceTreeView {
        SourceTreeView { kind: self.kind, text: self.text@, span: self.span }
    }
}

/// The tokens that the converter reads.
#[derive(Debug)]
pub enum Token {
    /// A gap between token trees, or the end of the input.
    Space,
    Int(String),
    Float(String),
    Str(String),
    Punct(char),
    Other(SourceTree),
    /// The end of the input.
    End,
}

/// The value of a token.
pub enum TokenView {
    Space,
    Int(Seq<char>),
    Float(Seq<char>),
    Str(Seq<char>),
    Punct(char),
    Other(SourceTreeView),
    End,
}

impl View for Token {
    type V = TokenView;

    open spec fn view(&self) -> TokenView {
        match self {
            Token::Space => TokenView::Space,
            Token::Int(s) => TokenView::Int(s@),
            Token::Float(s) => TokenView::Float(s@),
            Token::Str(s) => TokenView::Str(s@),
            Token::Punct(c) => TokenView::Punct(*c),
            Token::Other(t) => TokenView::Other(t@),
            Token::End => TokenView::End,
        }
    }
}

/// Why a conversion stops.
#[derive(Debug, Clone, Copy, PartialEq, Eq, Structural)]
pub enum MettaError {
    /// A literal that `litrs` cannot read.
    LiteralParse,
    /// A token that the converter does not accept where it stands.
    Unsupported,
    /// An integer literal whose text is not an `i64`.
    IntegerParse,
    /// The end of the input in the middle of a variable name.
    EndOfInput,
    /// A string literal whose quotes cannot be cut off.
    StringSlice,
}

/// The text of a token.
pub open spec fn token_text(t: TokenView) -> Seq<char> {
    match t {
        TokenView::Space => seq![' '],
        TokenView::Int(s) => s,
        TokenView::Float(s) => s,
        TokenView::Str(s) => s,
        TokenView::Punct(c) => seq![c],
        TokenView::Other(tt) => tt.text,
        TokenView::End => Seq::empty(),
    }
}

/// The token that a token tree reads as: literals by their kind, punctuation
/// by its character, anything else as itself.
pub open spec fn classify(tt: SourceTreeView) -> Result<TokenView, MettaError> {
    match tt.kind {
        TreeKind::Literal => match literal_class(tt.text) {
            None => Err(MettaError::LiteralParse),
            Some(LiteralClass::Integer) => Ok(TokenView::Int(tt.text)),
            Some(LiteralClass::Float) => Ok(TokenView::Float(tt.text)),
            Some(LiteralClass::String) => Ok(TokenView::Str(tt.text)),
            Some(LiteralClass::Other) => Ok(TokenView::Other(tt)),
        },
        TreeKind::Punct(c) => Ok(TokenView::Punct(c)),
        _ => Ok(TokenView::Other(tt)),
    }
}

/// A string of one character.
fn char_string(c: char) -> (r: String)
    ensures
        r@ == seq![c],
{
    let mut r = String::new();
    push_char(&mut r, c);
    r
}

/// Appends a character with std's `String::push`; believed, not proved: the
/// character is appended, as std documents.
#[verifier::external_body]
pub(crate) fn push_char(s: &mut String, c: char)
    ensures
        final(s)@ == old(s)@.push(c),
{
    s.push(c);
}

impl SourceTree {
    /// Copies a token tree.
    pub fn copy(&self) -> (r: SourceTree)
        ensures
            r@ == self@,
    {
        SourceTree { kind: self.kind, text: self.text.clone(), span: self.span }
    }
}

impl Token {
    /// The text of the token, as the compiler would print it; the end of the
    /// input has none.
    pub fn to_string(&self) -> (r: String)
        requires
            !(self@ is End),
        ensures
            r@ == token_text(self@),
    {
        match self {
            Token::Space => char_string(' '),
            Token::Int(s) => s.clone(),
            Token::Float(s) => s.clone(),
            Token::Str(s) => s.clone(),
            Token::Punct(c) => char_string(*c),
            Token::Other(tt) => tt.text.clone(),
            Token::End => String::new(),
        }
    }
}

} // verus!
