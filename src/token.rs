//! The token model: the four kinds of token that a macro host hands over.

use vstd::prelude::*;

verus! {

/// A source position handle.
///
/// `CallSite` stands for the position of the macro invocation itself; `Located(i)` is a
/// handle that the host hands out (the host keeps the table that gives it meaning).
#[derive(Clone, Copy, Debug, PartialEq, Eq, Structural)]
pub enum Span {
    CallSite,
    Located(usize),
}

impl Span {
    /// The position of the macro invocation.
    pub fn call_site() -> (r: Span)
        ensures
            r == Span::CallSite,
    {
        Span::CallSite
    }
}

/// The delimiter of a group.
#[derive(Clone, Copy, Debug, PartialEq, Eq, Structural)]
pub enum Delimiter {
    Parenthesis,
    Brace,
    Bracket,
    /// An invisible delimiter (the host wraps some expanded fragments in one).
    Invisible,
}

/// Whether a punctuation character is glued to a following punctuation character.
#[derive(Clone, Copy, Debug, PartialEq, Eq, Structural)]
pub enum Spacing {
    Alone,
    Joint,
}

/// An identifier or keyword. Two identifiers are equal when their texts are.
#[derive(Clone, Debug)]
pub struct Ident {
    pub text: String,
    pub span: Span,
}

/// A single punctuation character.
#[derive(Clone, Copy, Debug, PartialEq, Eq, Structural)]
pub struct Punct {
    pub ch: char,
    pub spacing: Spacing,
    pub span: Span,
}

/// A literal, kept in its raw textual form (quotes and prefixes included).
#[derive(Clone, Debug)]
pub struct Literal {
    pub repr: String,
    pub span: Span,
}

/// A sequence of tokens.
#[derive(Debug)]
pub struct TokenStream {
    pub trees: Vec<TokenTree>,
}

/// A delimited sub-sequence of tokens.
#[derive(Debug)]
pub struct Group {
    pub delimiter: Delimiter,
    pub stream: TokenStream,
    pub span: Span,
}

/// One token.
#[derive(Debug)]
pub enum TokenTree {
    Group(Group),
    Ident(Ident),
    Punct(Punct),
    Literal(Literal),
}

impl Ident {
    pub fn new(text: &str, span: Span) -> (r: Ident)
        ensures
            r.text@ == text@,
            r.span == span,
    {
        Ident { text: text.to_owned(), span }
    }
}

impl PartialEq for Ident {
    fn eq(&self, o: &Ident) -> (r: bool) {
        self.text == o.text
    }
}

impl vstd::std_specs::cmp::PartialEqSpecImpl for Ident {
    open spec fn obeys_eq_spec() -> bool {
        true
    }

    open spec fn eq_spec(&self, o: &Ident) -> bool {
        self.text@ == o.text@
    }
}

impl Punct {
    /// A punctuation character positioned at the call site.
    pub fn new(ch: char, spacing: Spacing) -> (r: Punct)
        ensures
            r == (Punct { ch, spacing, span: Span::CallSite }),
    {
        Punct { ch, spacing, span: Span::CallSite }
    }

    pub fn as_char(&self) -> (r: char)
        ensures
            r == self.ch,
    {
        self.ch
    }
}

impl Group {
    pub fn new(delimiter: Delimiter, stream: TokenStream) -> (r: Group)
        ensures
            r.delimiter == delimiter,
            r.stream == stream,
            r.span == Span::CallSite,
    {
        Group { delimiter, stream, span: Span::CallSite }
    }
}

impl TokenTree {
    /// The position that this token carries.
    pub open spec fn spec_span(&self) -> Span {
        match self {
            TokenTree::Group(g) => g.span,
            TokenTree::Ident(i) => i.span,
            TokenTree::Punct(p) => p.span,
            TokenTree::Literal(l) => l.span,
        }
    }

    pub fn span(&self) -> (r: Span)
        ensures
            r == self.spec_span(),
    {
        match self {
            TokenTree::Group(g) => g.span,
            TokenTree::Ident(i) => i.span,
            TokenTree::Punct(p) => p.span,
            TokenTree::Literal(l) => l.span,
        }
    }
}

} // verus!
