//! The cursor over a token sequence, its matchers, and the grammar parsers.

use crate::text::{push_char, str_eq};
use crate::token::{Delimiter, Group, Ident, Literal, Punct, Span, TokenStream, TokenTree};
use vstd::prelude::*;
use vstd::string::StringExecFns;

verus! {

/// What went wrong in a failed parse.
#[derive(Clone, Copy, Debug, PartialEq, Eq, Structural)]
pub enum ErrorKind {
    /// A token is present but of the wrong kind.
    UnexpectedToken,
    /// A token of the right kind is present but its text or character is not the one asked for.
    ExpectedSpecificToken,
    /// The sequence ran out where a token was required.
    UnexpectedEndOfStream,
    /// A literal's raw text is not quoted as required.
    InvalidLiteralForm,
}

/// A parse failure: what went wrong, a message for the user, and where.
#[derive(Debug)]
pub struct ParseError {
    pub kind: ErrorKind,
    pub message: String,
    pub span: Span,
}

/// The mathematical form of a [`ParseError`].
pub struct Failure {
    pub kind: ErrorKind,
    pub message: Seq<char>,
    pub span: Span,
}

impl View for ParseError {
    type V = Failure;

    open spec fn view(&self) -> Failure {
        Failure { kind: self.kind, message: self.message@, span: self.span }
    }
}

/// `Expected `x``, the message of a failed expectation.
pub open spec fn expected_message(what: Seq<char>) -> Seq<char> {
    "Expected `"@ + what + "`"@
}

/// The position of the front token, or the call site when there is none.
pub open spec fn front_span(ts: Seq<TokenTree>) -> Span {
    if ts.len() > 0 {
        ts[0].spec_span()
    } else {
        Span::CallSite
    }
}

/// A failure of the given kind and message at the given position.
pub open spec fn failure(kind: ErrorKind, message: Seq<char>, span: Span) -> Failure {
    Failure { kind, message, span }
}

/// Whether the front token is a group.
pub open spec fn front_group(ts: Seq<TokenTree>) -> bool {
    ts.len() > 0 && ts[0] is Group
}

/// Whether the front token is an identifier.
pub open spec fn front_ident(ts: Seq<TokenTree>) -> bool {
    ts.len() > 0 && ts[0] is Ident
}

/// Whether the front token is a literal.
pub open spec fn front_literal(ts: Seq<TokenTree>) -> bool {
    ts.len() > 0 && ts[0] is Literal
}

/// Whether the front token is a punctuation character.
pub open spec fn front_punct(ts: Seq<TokenTree>) -> bool {
    ts.len() > 0 && ts[0] is Punct
}

/// The message of a failed expectation of a group with the given delimiter.
pub open spec fn delimiter_message(d: Delimiter) -> Seq<char> {
    match d {
        Delimiter::Brace => "Expected `{`"@,
        Delimiter::Bracket => "Expected `[`"@,
        Delimiter::Parenthesis => "Expected `(`"@,
        Delimiter::Invisible => "Expected `delimiter`"@,
    }
}

/// A failure with the given kind, message and position.
pub fn error(kind: ErrorKind, message: &str, span: Span) -> (r: ParseError)
    ensures
        r@ == failure(kind, message@, span),
{
    ParseError { kind, message: message.to_owned(), span }
}

/// The token sequence without its front token.
pub open spec fn rest(ts: Seq<TokenTree>) -> Seq<TokenTree> {
    ts.subrange(1, ts.len() as int)
}

/// The position of an optional token, the call site when there is none.
pub open spec fn span_of_option(t: Option<&TokenTree>) -> Span {
    match t {
        Some(t) => t.spec_span(),
        None => Span::CallSite,
    }
}

/// The position of an optional token, the call site when there is none.
pub fn as_span(t: Option<&TokenTree>) -> (r: Span)
    ensures
        r == span_of_option(t),
{
    match t {
        Some(t) => t.span(),
        None => Span::call_site(),
    }
}

/// An attribute `#[name ...]`: its name and a cursor over the tokens after the name.
#[derive(Debug)]
pub struct Attribute {
    /// The attribute name: `hello` for `#[hello]`.
    pub name: Ident,
    /// The tokens inside the brackets after the name.
    pub tree: TokenIter,
}

impl View for Attribute {
    type V = (Ident, Seq<TokenTree>);

    open spec fn view(&self) -> (Ident, Seq<TokenTree>) {
        (self.name, self.tree@)
    }
}

/// What scanning an attribute list yields: the attributes and the number of tokens consumed,
/// or a failure and the number of tokens consumed up to it.
pub enum AttrScan {
    Parsed { attrs: Seq<(Ident, Seq<TokenTree>)>, used: nat },
    Stopped { failure: Failure, used: nat },
}

/// Whether `t` is the punctuation character `c`.
pub open spec fn is_punct_char(t: TokenTree, c: char) -> bool {
    t is Punct && t->Punct_0.ch == c
}

/// The attributes at the front of `ts`: each is `#` followed by a bracketed group whose first
/// token is an identifier. The list ends at the first token that is not `#`.
pub open spec fn attributes_of(ts: Seq<TokenTree>) -> AttrScan
    decreases ts.len(),
{
    if ts.len() > 0 && is_punct_char(ts[0], '#') {
        let r = rest(ts);
        if !front_group(r) {
            AttrScan::Stopped {
                failure: failure(ErrorKind::UnexpectedToken, "Expected group"@, front_span(r)),
                used: if r.len() > 0 { 2 } else { 1 },
            }
        } else if r[0]->Group_0.delimiter != Delimiter::Bracket {
            AttrScan::Stopped {
                failure: failure(
                    ErrorKind::ExpectedSpecificToken,
                    delimiter_message(Delimiter::Bracket),
                    r[0]->Group_0.span,
                ),
                used: 2,
            }
        } else {
            let inner = r[0]->Group_0.stream.trees@;
            if !front_ident(inner) {
                AttrScan::Stopped {
                    failure: failure(ErrorKind::UnexpectedToken, "Expected identifier"@, front_span(inner)),
                    used: 2,
                }
            } else {
                match attributes_of(ts.subrange(2, ts.len() as int)) {
                    AttrScan::Parsed { attrs, used } => AttrScan::Parsed {
                        attrs: seq![(inner[0]->Ident_0, rest(inner))] + attrs,
                        used: used + 2,
                    },
                    AttrScan::Stopped { failure, used } => AttrScan::Stopped { failure, used: used + 2 },
                }
            }
        }
    } else {
        AttrScan::Parsed { attrs: seq![], used: 0 }
    }
}

impl AttrScan {
    /// The number of tokens consumed.
    pub open spec fn consumed(self) -> nat {
        match self {
            AttrScan::Parsed { used, .. } => used,
            AttrScan::Stopped { used, .. } => used,
        }
    }
}

/// The number of tokens that a visibility modifier at the front of `ts` takes: `pub`, and
/// a parenthesised group right after it (as in `pub(crate)`).
pub open spec fn visibility_len(ts: Seq<TokenTree>) -> nat {
    if front_ident(ts) && ts[0]->Ident_0.text@ == "pub"@ {
        if ts.len() > 1 && ts[1] is Group && ts[1]->Group_0.delimiter == Delimiter::Parenthesis {
            2
        } else {
            1
        }
    } else {
        0
    }
}

/// A cursor over a token sequence, with one token of lookahead.
///
/// Tokens are kept in reverse order, so that the front token is the last element and
/// consuming it is a `pop`.
#[derive(Debug)]
pub struct TokenIter {
    rev: Vec<TokenTree>,
}

impl View for TokenIter {
    type V = Seq<TokenTree>;

    /// The tokens not yet consumed, front first.
    closed spec fn view(&self) -> Seq<TokenTree> {
        Seq::new(self.rev@.len(), |i: int| self.rev@[self.rev@.len() - 1 - i])
    }
}

impl TokenStream {
    /// A cursor over this stream's tokens.
    pub fn into_token_iter(self) -> (r: TokenIter)
        ensures
            r@ == self.trees@,
    {
        let ghost orig = self.trees@;
        let mut trees = self.trees;
        let mut rev: Vec<TokenTree> = Vec::new();
        while trees.len() > 0
            invariant
                trees@.len() + rev@.len() == orig.len(),
                trees@ == orig.subrange(0, trees@.len() as int),
                forall|k: int| 0 <= k < rev@.len() ==> rev@[k] == orig[orig.len() - 1 - k],
            decreases trees@.len(),
        {
            let t = trees.pop().unwrap();
            rev.push(t);
        }
        let r = TokenIter { rev };
        assert(r@ =~= orig);
        r
    }
}

impl TokenIter {
    /// Consumes and returns the front token.
    pub fn next(&mut self) -> (r: Option<TokenTree>)
        ensures
            old(self)@.len() == 0 ==> r is None && final(self)@ == old(self)@,
            old(self)@.len() > 0 ==> r == Some(old(self)@[0]) && final(self)@ == rest(old(self)@),
    {
        let r = self.rev.pop();
        if r.is_some() {
            assert(self@ =~= rest(old(self)@));
        } else {
            assert(self@ =~= old(self)@);
        }
        r
    }

    /// The front token, without consuming it.
    pub fn peek(&self) -> (r: Option<&TokenTree>)
        ensures
            self@.len() == 0 ==> r is None,
            self@.len() > 0 ==> r == Some(&self@[0]),
    {
        let n = self.rev.len();
        if n == 0 {
            None
        } else {
            Some(&self.rev[n - 1])
        }
    }

    /// The token `n` places after the front, without consuming anything.
    pub fn peek_nth(&self, n: usize) -> (r: Option<&TokenTree>)
        ensures
            n >= self@.len() ==> r is None,
            n < self@.len() ==> r == Some(&self@[n as int]),
    {
        let len = self.rev.len();
        if n >= len {
            None
        } else {
            Some(&self.rev[len - 1 - n])
        }
    }

    /// Consumes the front token if it is a group.
    ///
    /// On a mismatch nothing is consumed.
    pub fn try_group(&mut self) -> (r: Result<Group, ParseError>)
        ensures
            front_group(old(self)@) ==> r == Ok::<Group, ParseError>(old(self)@[0]->Group_0)
                && final(self)@ == rest(old(self)@),
            !front_group(old(self)@) ==> r is Err && final(self)@ == old(self)@ && r->Err_0@
                == failure(ErrorKind::UnexpectedToken, "Expected group"@, front_span(old(self)@)),
    {
        if let Some(TokenTree::Group(_)) = self.peek() {
            if let Some(TokenTree::Group(g)) = self.next() {
                return Ok(g);
            }
        }
        Err(error(ErrorKind::UnexpectedToken, "Expected group", as_span(self.peek())))
    }

    /// Consumes the front token if it is an identifier.
    ///
    /// On a mismatch nothing is consumed.
    pub fn try_ident(&mut self) -> (r: Result<Ident, ParseError>)
        ensures
            front_ident(old(self)@) ==> r == Ok::<Ident, ParseError>(old(self)@[0]->Ident_0)
                && final(self)@ == rest(old(self)@),
            !front_ident(old(self)@) ==> r is Err && final(self)@ == old(self)@ && r->Err_0@
                == failure(ErrorKind::UnexpectedToken, "Expected identifier"@, front_span(old(self)@)),
    {
        if let Some(TokenTree::Ident(_)) = self.peek() {
            if let Some(TokenTree::Ident(i)) = self.next() {
                return Ok(i);
            }
        }
        Err(error(ErrorKind::UnexpectedToken, "Expected identifier", as_span(self.peek())))
    }

    /// Consumes the front token if it is a literal.
    ///
    /// On a mismatch nothing is consumed.
    pub fn try_lit(&mut self) -> (r: Result<Literal, ParseError>)
        ensures
            front_literal(old(self)@) ==> r == Ok::<Literal, ParseError>(old(self)@[0]->Literal_0)
                && final(self)@ == rest(old(self)@),
            !front_literal(old(self)@) ==> r is Err && final(self)@ == old(self)@ && r->Err_0@
                == failure(ErrorKind::UnexpectedToken, "Expected literal"@, front_span(old(self)@)),
    {
        if let Some(TokenTree::Literal(_)) = self.peek() {
            if let Some(TokenTree::Literal(l)) = self.next() {
                return Ok(l);
            }
        }
        Err(error(ErrorKind::UnexpectedToken, "Expected literal", as_span(self.peek())))
    }

    /// Consumes the front token if it is a punctuation character.
    ///
    /// On a mismatch nothing is consumed.
    pub fn try_punct(&mut self) -> (r: Result<Punct, ParseError>)
        ensures
            front_punct(old(self)@) ==> r == Ok::<Punct, ParseError>(old(self)@[0]->Punct_0)
                && final(self)@ == rest(old(self)@),
            !front_punct(old(self)@) ==> r is Err && final(self)@ == old(self)@ && r->Err_0@
                == failure(ErrorKind::UnexpectedToken, "Expected punctuation"@, front_span(old(self)@)),
    {
        if let Some(TokenTree::Punct(_)) = self.peek() {
            if let Some(TokenTree::Punct(p)) = self.next() {
                return Ok(p);
            }
        }
        Err(error(ErrorKind::UnexpectedToken, "Expected punctuation", as_span(self.peek())))
    }

    /// Consumes the front token, which must be a group with the given delimiter, and returns
    /// a cursor over the group's tokens.
    ///
    /// The front token is consumed whether or not it matches.
    pub fn expect_group(&mut self, expect: Delimiter) -> (r: Result<TokenIter, ParseError>)
        ensures
            old(self)@.len() == 0 ==> final(self)@ == old(self)@,
            old(self)@.len() > 0 ==> final(self)@ == rest(old(self)@),
            !front_group(old(self)@) ==> r is Err && r->Err_0@ == failure(
                ErrorKind::UnexpectedToken,
                "Expected group"@,
                front_span(old(self)@),
            ),
            front_group(old(self)@) && old(self)@[0]->Group_0.delimiter != expect ==> r is Err
                && r->Err_0@ == failure(
                ErrorKind::ExpectedSpecificToken,
                delimiter_message(expect),
                old(self)@[0]->Group_0.span,
            ),
            front_group(old(self)@) && old(self)@[0]->Group_0.delimiter == expect ==> r is Ok
                && r->Ok_0@ == old(self)@[0]->Group_0.stream.trees@,
    {
        match self.try_group() {
            Ok(group) => {
                if group.delimiter == expect {
                    Ok(group.stream.into_token_iter())
                } else {
                    let message = match expect {
                        Delimiter::Brace => "Expected `{`",
                        Delimiter::Bracket => "Expected `[`",
                        Delimiter::Parenthesis => "Expected `(`",
                        Delimiter::Invisible => "Expected `delimiter`",
                    };
                    Err(error(ErrorKind::ExpectedSpecificToken, message, group.span))
                }
            },
            Err(e) => {
                self.next();
                Err(e)
            },
        }
    }

    /// Consumes the front token, which must be an identifier with the given text.
    ///
    /// The front token is consumed whether or not it matches.
    pub fn expect_ident(&mut self, expect: &str) -> (r: Result<(), ParseError>)
        ensures
            old(self)@.len() == 0 ==> final(self)@ == old(self)@,
            old(self)@.len() > 0 ==> final(self)@ == rest(old(self)@),
            !front_ident(old(self)@) ==> r is Err && r->Err_0@ == failure(
                ErrorKind::UnexpectedToken,
                "Expected identifier"@,
                front_span(old(self)@),
            ),
            front_ident(old(self)@) && old(self)@[0]->Ident_0.text@ != expect@ ==> r is Err
                && r->Err_0@ == failure(
                ErrorKind::ExpectedSpecificToken,
                expected_message(expect@),
                old(self)@[0]->Ident_0.span,
            ),
            front_ident(old(self)@) && old(self)@[0]->Ident_0.text@ == expect@ ==> r is Ok,
    {
        match self.try_ident() {
            Ok(ident) => {
                if str_eq(ident.text.as_str(), expect) {
                    Ok(())
                } else {
                    let mut message = String::from_str("Expected `");
                    message.append(expect);
                    message.append("`");
                    Err(ParseError { kind: ErrorKind::ExpectedSpecificToken, message, span: ident.span })
                }
            },
            Err(e) => {
                self.next();
                Err(e)
            },
        }
    }

    /// Consumes the front token, which must be the given punctuation character.
    ///
    /// The front token is consumed whether or not it matches.
    pub fn expect_punct(&mut self, expect: char) -> (r: Result<(), ParseError>)
        ensures
            old(self)@.len() == 0 ==> final(self)@ == old(self)@,
            old(self)@.len() > 0 ==> final(self)@ == rest(old(self)@),
            !front_punct(old(self)@) ==> r is Err && r->Err_0@ == failure(
                ErrorKind::UnexpectedToken,
                "Expected punctuation"@,
                front_span(old(self)@),
            ),
            front_punct(old(self)@) && old(self)@[0]->Punct_0.ch != expect ==> r is Err
                && r->Err_0@ == failure(
                ErrorKind::ExpectedSpecificToken,
                expected_message(seq![expect]),
                old(self)@[0]->Punct_0.span,
            ),
            front_punct(old(self)@) && old(self)@[0]->Punct_0.ch == expect ==> r is Ok,
    {
        match self.try_punct() {
            Ok(punct) => {
                if punct.ch == expect {
                    Ok(())
                } else {
                    let mut message = String::from_str("Expected `");
                    push_char(&mut message, expect);
                    message.append("`");
                    proof {
                        assert(message@ =~= expected_message(seq![expect]));
                    }
                    Err(ParseError { kind: ErrorKind::ExpectedSpecificToken, message, span: punct.span })
                }
            },
            Err(e) => {
                self.next();
                Err(e)
            },
        }
    }

    /// The number of tokens left.
    pub fn len(&self) -> (r: usize)
        ensures
            r == self@.len(),
    {
        self.rev.len()
    }

    /// Skips a visibility modifier at the front, if there is one. It never fails.
    pub fn parse_visibility(&mut self) -> (r: Result<(), ParseError>)
        ensures
            r is Ok,
            final(self)@ == old(self)@.subrange(visibility_len(old(self)@) as int, old(self)@.len() as int),
    {
        let is_pub = match self.peek() {
            Some(TokenTree::Ident(ident)) => str_eq(ident.text.as_str(), "pub"),
            _ => false,
        };
        if !is_pub {
            assert(self@ =~= old(self)@.subrange(0, old(self)@.len() as int));
            return Ok(());
        }
        self.next();
        let is_restriction = match self.peek() {
            Some(TokenTree::Group(group)) => group.delimiter == Delimiter::Parenthesis,
            _ => false,
        };
        if is_restriction {
            self.next();
            assert(self@ =~= old(self)@.subrange(2, old(self)@.len() as int));
        }
        Ok(())
    }

    /// Parses the attributes at the front: as long as the front token is `#`, it takes `#`,
    /// a bracketed group, and the identifier that starts the group.
    pub fn parse_attributes(&mut self) -> (r: Result<Vec<Attribute>, ParseError>)
        ensures
            attributes_of(old(self)@).consumed() <= old(self)@.len(),
            final(self)@ == old(self)@.subrange(
                attributes_of(old(self)@).consumed() as int,
                old(self)@.len() as int,
            ),
            match attributes_of(old(self)@) {
                AttrScan::Parsed { attrs, .. } => r is Ok && r->Ok_0@.len() == attrs.len()
                    && forall|k: int| 0 <= k < attrs.len() ==> #[trigger] r->Ok_0@[k]@ == attrs[k],
                AttrScan::Stopped { failure, .. } => r is Err && r->Err_0@ == failure,
            },
    {
        let ghost orig = self@;
        let mut attrs: Vec<Attribute> = Vec::new();
        let ghost mut used: int = 0;
        assert(orig.subrange(0, orig.len() as int) =~= orig);
        loop
            invariant
                old(self)@ == orig,
                0 <= used <= orig.len(),
                self@ == orig.subrange(used, orig.len() as int),
                attributes_of(orig) == match attributes_of(self@) {
                    AttrScan::Parsed { attrs: more, used: u } => AttrScan::Parsed {
                        attrs: attrs@.map_values(|a: Attribute| a@) + more,
                        used: u + used as nat,
                    },
                    AttrScan::Stopped { failure, used: u } => AttrScan::Stopped { failure, used: u + used as nat },
                },
            ensures
                old(self)@ == orig,
                0 <= used <= orig.len(),
                self@ == orig.subrange(used, orig.len() as int),
                attributes_of(orig) == (AttrScan::Parsed { attrs: attrs@.map_values(|a: Attribute| a@), used: used as nat }),
            decreases self@.len(),
        {
            let ghost cur = self@;
            let is_hash = match self.peek() {
                Some(TokenTree::Punct(punct)) => punct.ch == '#',
                _ => false,
            };
            if !is_hash {
                assert(attrs@.map_values(|a: Attribute| a@) + seq![] =~= attrs@.map_values(|a: Attribute| a@));
                break;
            }
            self.next();
            let ghost r = self@;
            let mut group = match self.expect_group(Delimiter::Bracket) {
                Ok(g) => g,
                Err(e) => {
                    proof {
                        if r.len() > 0 {
                            assert(self@ =~= orig.subrange(used + 2, orig.len() as int));
                        } else {
                            assert(self@ =~= orig.subrange(used + 1, orig.len() as int));
                        }
                    }
                    return Err(e);
                },
            };
            let ghost inner = group@;
            let name = match group.try_ident() {
                Ok(i) => i,
                Err(e) => {
                    proof {
                        assert(self@ =~= orig.subrange(used + 2, orig.len() as int));
                    }
                    return Err(e);
                },
            };
            let ghost before = attrs@.map_values(|a: Attribute| a@);
            attrs.push(Attribute { name, tree: group });
            proof {
                assert(cur.subrange(2, cur.len() as int) =~= self@);
                assert(attrs@.map_values(|a: Attribute| a@) =~= before + seq![(inner[0]->Ident_0, rest(inner))]);
                match attributes_of(self@) {
                    AttrScan::Parsed { attrs: more, .. } => {
                        assert(before + (seq![(inner[0]->Ident_0, rest(inner))] + more)
                            =~= attrs@.map_values(|a: Attribute| a@) + more);
                    },
                    _ => {},
                }
                used = used + 2;
                assert(self@ =~= orig.subrange(used, orig.len() as int));
            }
        }
        Ok(attrs)
    }

    /// Whether no token is left.
    pub fn is_empty(&self) -> (r: bool)
        ensures
            r == (self@.len() == 0),
    {
        self.rev.len() == 0
    }
}

} // verus!
