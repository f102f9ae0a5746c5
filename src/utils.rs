//! Diagnostics as token sequences, and doc-comment extraction.

use crate::literal::{quoted, string_of};
use crate::token::{Delimiter, Group, Ident, Literal, Punct, Spacing, Span, TokenStream, TokenTree};
use crate::ty::{is_punct_char, Attribute, ParseError};
use vstd::prelude::*;

verus! {

/// Whether `ts` is `compile_error!("msg");`: the identifier and the group positioned at
/// `span`, the message quoted as a string literal.
pub open spec fn is_compile_error(ts: Seq<TokenTree>, msg: Seq<char>, span: Span) -> bool {
    &&& ts.len() == 4
    &&& ts[0] is Ident && ts[0]->Ident_0.text@ == "compile_error"@ && ts[0]->Ident_0.span == span
    &&& ts[1] == TokenTree::Punct(Punct { ch: '!', spacing: Spacing::Alone, span: Span::CallSite })
    &&& ts[2] is Group && ts[2]->Group_0.delimiter == Delimiter::Parenthesis && ts[2]->Group_0.span == span
    &&& ts[2]->Group_0.stream.trees@.len() == 1
    &&& ts[2]->Group_0.stream.trees@[0] is Literal
    &&& ts[2]->Group_0.stream.trees@[0]->Literal_0.repr@ == quoted(msg)
    &&& ts[2]->Group_0.stream.trees@[0]->Literal_0.span == Span::CallSite
    &&& ts[3] == TokenTree::Punct(Punct { ch: ';', spacing: Spacing::Alone, span: Span::CallSite })
}

/// A compiler error with the given message, positioned at `span`: the tokens of
/// `compile_error!("msg");`.
pub fn spanned_error(msg: &str, span: Span) -> (r: TokenStream)
    ensures
        is_compile_error(r.trees@, msg@, span),
{
    let mut inner: Vec<TokenTree> = Vec::new();
    inner.push(TokenTree::Literal(Literal::string(msg)));
    let mut group = Group::new(Delimiter::Parenthesis, TokenStream { trees: inner });
    group.span = span;
    let mut trees: Vec<TokenTree> = Vec::new();
    trees.push(TokenTree::Ident(Ident::new("compile_error", span)));
    trees.push(TokenTree::Punct(Punct::new('!', Spacing::Alone)));
    trees.push(TokenTree::Group(group));
    trees.push(TokenTree::Punct(Punct::new(';', Spacing::Alone)));
    TokenStream { trees }
}

impl ParseError {
    /// This failure as a compiler error at its position, to be spliced into a macro's output.
    pub fn to_compile_error(&self) -> (r: TokenStream)
        ensures
            is_compile_error(r.trees@, self.message@, self.span),
    {
        spanned_error(self.message.as_str(), self.span)
    }
}

/// The doc-comment line of an attribute: for `doc` with a body `= "text"`, the decoded
/// string; nothing for any other attribute.
pub open spec fn doc_line(a: (Ident, Seq<TokenTree>)) -> Option<Seq<char>> {
    let (name, body) = a;
    if name.text@ == "doc"@ && body.len() >= 2 && is_punct_char(body[0], '=') && body[1] is Literal
        && string_of(body[1]->Literal_0.repr@) is Ok {
        Some(string_of(body[1]->Literal_0.repr@)->Ok_0)
    } else {
        None
    }
}

/// The doc-comment lines of a list of attributes, in order.
pub open spec fn doc_lines(attrs: Seq<(Ident, Seq<TokenTree>)>) -> Seq<Seq<char>>
    decreases attrs.len(),
{
    if attrs.len() == 0 {
        seq![]
    } else {
        let before = doc_lines(attrs.drop_last());
        match doc_line(attrs.last()) {
            Some(line) => before.push(line),
            None => before,
        }
    }
}

/// The lines of the doc comment among `attrs`. Attributes of another shape are skipped.
pub fn get_doc_comment(attrs: &[Attribute]) -> (r: Vec<String>)
    ensures
        r@.map_values(|s: String| s@) == doc_lines(attrs@.map_values(|a: Attribute| a@)),
{
    let ghost model = attrs@.map_values(|a: Attribute| a@);
    let mut lines: Vec<String> = Vec::new();
    let mut i: usize = 0;
    while i < attrs.len()
        invariant
            model == attrs@.map_values(|a: Attribute| a@),
            i <= attrs@.len(),
            lines@.map_values(|s: String| s@) == doc_lines(model.subrange(0, i as int)),
        decreases attrs@.len() - i,
    {
        let attr = &attrs[i];
        let ghost before = lines@.map_values(|s: String| s@);
        let is_doc = crate::text::str_eq(attr.name.text.as_str(), "doc");
        if is_doc {
            let has_eq = match attr.tree.peek_nth(0) {
                Some(TokenTree::Punct(punct)) => punct.ch == '=',
                _ => false,
            };
            if has_eq {
                if let Some(TokenTree::Literal(lit)) = attr.tree.peek_nth(1) {
                    if let Ok(line) = lit.as_string() {
                        lines.push(line);
                    }
                }
            }
        }
        proof {
            let t = model.subrange(0, i + 1);
            assert(t.drop_last() =~= model.subrange(0, i as int));
            assert(t.last() == attr@);
            match doc_line(attr@) {
                Some(line) => {
                    assert(lines@.map_values(|s: String| s@) =~= before.push(line));
                },
                None => {
                    assert(lines@.map_values(|s: String| s@) =~= before);
                },
            }
        }
        i += 1;
    }
    assert(model.subrange(0, attrs@.len() as int) =~= model);
    lines
}

} // verus!
