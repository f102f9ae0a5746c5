//! Type paths: `a::b<c, (d, e)>`, tuples and arrays, rendered back as text.

use crate::text::{pop_char, push_char};
use crate::token::{Delimiter, Punct, Spacing, Span, TokenTree};
use crate::ty::{error, failure, is_punct_char, front_literal, front_punct, front_span, expected_message, ErrorKind, Failure, ParseError, TokenIter};
use vstd::prelude::*;
use vstd::string::{StrSliceExecFns, StringExecFns};

verus! {

/// What scanning a path yields: its text and the number of tokens consumed, or a failure
/// and the number of tokens consumed up to it.
pub enum Scan {
    Done { text: Seq<char>, used: nat },
    Failed { failure: Failure, used: nat },
}

impl Scan {
    /// The number of tokens consumed.
    pub open spec fn consumed(self) -> nat {
        match self {
            Scan::Done { used, .. } => used,
            Scan::Failed { used, .. } => used,
        }
    }
}

/// `s` with `prefix` put before its text and `n` more tokens counted as consumed.
pub open spec fn after(prefix: Seq<char>, n: nat, s: Scan) -> Scan {
    match s {
        Scan::Done { text, used } => Scan::Done { text: prefix + text, used: used + n },
        Scan::Failed { failure, used } => Scan::Failed { failure, used: used + n },
    }
}

pub open spec fn unexpected(span: Span) -> Failure {
    failure(ErrorKind::UnexpectedToken, "Unexpected token"@, span)
}

pub open spec fn end_of_stream() -> Failure {
    failure(ErrorKind::UnexpectedEndOfStream, "Unexpected end of stream"@, Span::CallSite)
}

/// The angle-bracket depth after the punctuation `p`: `<` opens, a `>` that is not the
/// first half of a compound glyph closes.
pub open spec fn next_depth(p: Punct, depth: int) -> int {
    if p.ch == '<' {
        depth + 1
    } else if p.ch == '>' && p.spacing == Spacing::Alone {
        depth - 1
    } else {
        depth
    }
}

/// Scans the path at the front of `ts`, inside `depth` open angle brackets. It stops before
/// a `,` or `;` at depth zero, and at the end of `ts`.
pub open spec fn scan_path(ts: Seq<TokenTree>, depth: int) -> Scan
    decreases ts, 0nat,
{
    if ts.len() == 0 {
        Scan::Done { text: seq![], used: 0 }
    } else {
        let tail = ts.subrange(1, ts.len() as int);
        match ts[0] {
            TokenTree::Punct(p) => {
                if (p.ch == ',' || p.ch == ';') && depth == 0 {
                    Scan::Done { text: seq![], used: 0 }
                } else {
                    after(seq![p.ch], 1, scan_path(tail, next_depth(p, depth)))
                }
            },
            TokenTree::Ident(i) => after(i.text@, 1, scan_path(tail, depth)),
            TokenTree::Group(g) => {
                if g.delimiter == Delimiter::Parenthesis {
                    match tuple_text(g.stream.trees@) {
                        Ok(t) => after(t, 1, scan_path(tail, depth)),
                        Err(f) => Scan::Failed { failure: f, used: 1 },
                    }
                } else if g.delimiter == Delimiter::Bracket {
                    match array_text(g.stream.trees@) {
                        Ok(t) => after(t, 1, scan_path(tail, depth)),
                        Err(f) => Scan::Failed { failure: f, used: 1 },
                    }
                } else {
                    Scan::Failed { failure: unexpected(g.span), used: 0 }
                }
            },
            TokenTree::Literal(l) => Scan::Failed { failure: unexpected(l.span), used: 1 },
        }
    }
}

/// The path at the front of `ts`: as `scan_path`, but a path of no tokens is a failure.
pub open spec fn path_of(ts: Seq<TokenTree>) -> Scan
    decreases ts, 1nat,
{
    let s = scan_path(ts, 0);
    if s is Done && s.consumed() == 0 {
        Scan::Failed { failure: end_of_stream(), used: 0 }
    } else {
        s
    }
}

/// The elements of a tuple's token list, each rendered as a path, joined by `, `; a trailing
/// `,` leaves a trailing `, `.
pub open spec fn tuple_items(ts: Seq<TokenTree>) -> Result<Seq<char>, Failure>
    decreases ts, 2nat,
{
    if ts.len() == 0 {
        Ok(seq![])
    } else {
        match path_of(ts) {
            Scan::Failed { failure, .. } => Err(failure),
            Scan::Done { text, used } => {
                if used > ts.len() {
                    Ok(text)
                } else if used == ts.len() {
                    Ok(text)
                } else if !(ts[used as int] is Punct) {
                    Err(failure(ErrorKind::UnexpectedToken, "Expected punctuation"@, ts[used as int].spec_span()))
                } else if ts[used as int]->Punct_0.ch != ',' {
                    Err(
                        failure(
                            ErrorKind::ExpectedSpecificToken,
                            expected_message(seq![',']),
                            ts[used as int]->Punct_0.span,
                        ),
                    )
                } else {
                    match tuple_items(ts.subrange(used as int + 1, ts.len() as int)) {
                        Ok(more) => Ok(text + ", "@ + more),
                        Err(f) => Err(f),
                    }
                }
            },
        }
    }
}

/// `s` without a trailing space.
pub open spec fn trim_space(s: Seq<char>) -> Seq<char> {
    if s.len() > 0 && s.last() == ' ' {
        s.drop_last()
    } else {
        s
    }
}

/// The rendering of a parenthesised group: `(a, b)`, and `(a,)` for `(a, )`.
pub open spec fn tuple_text(ts: Seq<TokenTree>) -> Result<Seq<char>, Failure>
    decreases ts, 3nat,
{
    match tuple_items(ts) {
        Ok(items) => Ok(trim_space("("@ + items) + ")"@),
        Err(f) => Err(f),
    }
}

/// The rendering of a bracketed group `[path; length]`. Tokens after the length are ignored.
pub open spec fn array_text(ts: Seq<TokenTree>) -> Result<Seq<char>, Failure>
    decreases ts, 2nat,
{
    match path_of(ts) {
        Scan::Failed { failure, .. } => Err(failure),
        Scan::Done { text, used } => {
            if used > ts.len() {
                Ok(text)
            } else {
                let r = ts.subrange(used as int, ts.len() as int);
                if !front_punct(r) {
                    Err(failure(ErrorKind::UnexpectedToken, "Expected punctuation"@, front_span(r)))
                } else if r[0]->Punct_0.ch != ';' {
                    Err(
                        failure(
                            ErrorKind::ExpectedSpecificToken,
                            expected_message(seq![';']),
                            r[0]->Punct_0.span,
                        ),
                    )
                } else {
                    let r2 = r.subrange(1, r.len() as int);
                    if front_literal(r2) {
                        Ok("["@ + text + "; "@ + r2[0]->Literal_0.repr@ + "]"@)
                    } else {
                        Err(failure(ErrorKind::UnexpectedToken, "Expected literal"@, front_span(r2)))
                    }
                }
            }
        },
    }
}

/// Whether `t` can stand in a path: an identifier, a punctuation character, or a
/// parenthesised or bracketed group whose tuple or array rendering succeeds.
pub open spec fn renders(t: TokenTree) -> bool {
    match t {
        TokenTree::Ident(_) => true,
        TokenTree::Punct(_) => true,
        TokenTree::Group(g) => {
            (g.delimiter == Delimiter::Parenthesis && tuple_text(g.stream.trees@) is Ok) || (
            g.delimiter == Delimiter::Bracket && array_text(g.stream.trees@) is Ok)
        },
        TokenTree::Literal(_) => false,
    }
}

/// The text of a token that can stand in a path.
pub open spec fn token_text(t: TokenTree) -> Seq<char> {
    match t {
        TokenTree::Ident(i) => i.text@,
        TokenTree::Punct(p) => seq![p.ch],
        TokenTree::Group(g) => {
            if g.delimiter == Delimiter::Parenthesis {
                tuple_text(g.stream.trees@)->Ok_0
            } else {
                array_text(g.stream.trees@)->Ok_0
            }
        },
        TokenTree::Literal(_) => seq![],
    }
}

/// The texts of the tokens of `ts`, one after the other.
pub open spec fn joined(ts: Seq<TokenTree>) -> Seq<char>
    decreases ts.len(),
{
    if ts.len() == 0 {
        seq![]
    } else {
        token_text(ts[0]) + joined(ts.subrange(1, ts.len() as int))
    }
}

/// Whether every token of `ts` can stand in a path and, counting angle brackets from
/// `depth`, no `,` or `;` comes at depth zero.
pub open spec fn no_stop(ts: Seq<TokenTree>, depth: int) -> bool
    decreases ts.len(),
{
    ts.len() == 0 || (renders(ts[0]) && match ts[0] {
        TokenTree::Punct(p) => !((p.ch == ',' || p.ch == ';') && depth == 0) && no_stop(
            ts.subrange(1, ts.len() as int),
            next_depth(p, depth),
        ),
        _ => no_stop(ts.subrange(1, ts.len() as int), depth),
    })
}

proof fn lemma_scan_whole(ts: Seq<TokenTree>, depth: int)
    requires
        no_stop(ts, depth),
    ensures
        scan_path(ts, depth) == (Scan::Done { text: joined(ts), used: ts.len() }),
    decreases ts.len(),
{
    if ts.len() > 0 {
        let tail = ts.subrange(1, ts.len() as int);
        match ts[0] {
            TokenTree::Punct(p) => {
                lemma_scan_whole(tail, next_depth(p, depth));
            },
            _ => {
                lemma_scan_whole(tail, depth);
            },
        }
    }
}

/// A path whose separators all stand inside angle brackets, and whose tokens all render, is
/// taken whole: `path_of` consumes every token and its text is the tokens' texts in order
/// (`a::b<c>`, `a::b<()>`, `a::b<(c, d::e<T>)>`).
pub proof fn path_takes_all(ts: Seq<TokenTree>)
    requires
        ts.len() > 0,
        no_stop(ts, 0),
    ensures
        path_of(ts) == (Scan::Done { text: joined(ts), used: ts.len() }),
{
    lemma_scan_whole(ts, 0);
}

proof fn lemma_names_no_stop(ts: Seq<TokenTree>, depth: int)
    requires
        forall|k: int| 0 <= k < ts.len() ==> ts[k] is Ident || is_punct_char(#[trigger] ts[k], ':'),
    ensures
        no_stop(ts, depth),
    decreases ts.len(),
{
    if ts.len() > 0 {
        let tail = ts.subrange(1, ts.len() as int);
        assert forall|k: int| 0 <= k < tail.len() implies tail[k] is Ident || is_punct_char(#[trigger] tail[k], ':') by {
            assert(tail[k] == ts[k + 1]);
        }
        assert(ts[0] is Ident || is_punct_char(ts[0], ':'));
        lemma_names_no_stop(tail, depth);
        match ts[0] {
            TokenTree::Punct(p) => {
                assert(next_depth(p, depth) == depth);
            },
            _ => {},
        }
    }
}

/// A segmented name (identifiers and `:` only, as in `a::b`) is taken whole, and its text is
/// the tokens' texts in order: the cursor is left empty.
pub proof fn segmented_name_path(ts: Seq<TokenTree>)
    requires
        ts.len() > 0,
        forall|k: int| 0 <= k < ts.len() ==> ts[k] is Ident || is_punct_char(#[trigger] ts[k], ':'),
    ensures
        path_of(ts) == (Scan::Done { text: joined(ts), used: ts.len() }),
{
    lemma_names_no_stop(ts, 0);
    path_takes_all(ts);
}

/// `r` with `prefix` put before its text.
pub open spec fn prepend_items(prefix: Seq<char>, r: Result<Seq<char>, Failure>) -> Result<Seq<char>, Failure> {
    match r {
        Ok(t) => Ok(prefix + t),
        Err(f) => Err(f),
    }
}

proof fn lemma_after_after(a: Seq<char>, n: nat, b: Seq<char>, m: nat, s: Scan)
    ensures
        after(a, n, after(b, m, s)) == after(a + b, n + m, s),
{
    match s {
        Scan::Done { text, used } => {
            assert(a + (b + text) =~= (a + b) + text);
        },
        Scan::Failed { .. } => {},
    }
}

proof fn lemma_path_used(ts: Seq<TokenTree>)
    ensures
        path_of(ts).consumed() <= ts.len(),
{
    lemma_scan_used(ts, 0);
}

proof fn lemma_scan_used(ts: Seq<TokenTree>, depth: int)
    ensures
        scan_path(ts, depth).consumed() <= ts.len(),
    decreases ts.len(),
{
    if ts.len() > 0 {
        let tail = ts.subrange(1, ts.len() as int);
        lemma_scan_used(tail, depth);
        match ts[0] {
            TokenTree::Punct(p) => {
                lemma_scan_used(tail, next_depth(p, depth));
            },
            _ => {},
        }
    }
}

impl TokenIter {
    /// Parses a type path at the front of the cursor and renders it as text, with the position
    /// of its first token.
    ///
    /// The path ends before a `,` or `;` outside angle brackets, or at the end of the tokens.
    /// Parenthesised groups are rendered as tuples and bracketed groups as `[path; length]`.
    pub fn parse_path(&mut self) -> (r: Result<(String, Span), ParseError>)
        ensures
            path_of(old(self)@) is Done ==> r is Ok && r->Ok_0.0@ == path_of(old(self)@)->text
                && r->Ok_0.1 == old(self)@[0].spec_span(),
            path_of(old(self)@) is Failed ==> r is Err && r->Err_0@ == path_of(old(self)@)->failure,
            path_of(old(self)@).consumed() <= old(self)@.len(),
            final(self)@ == old(self)@.subrange(
                path_of(old(self)@).consumed() as int,
                old(self)@.len() as int,
            ),
        decreases self@, 0nat,
    {
        let ghost orig = self@;
        let _ = self.len();
        let mut path = String::new();
        let mut span: Option<Span> = None;
        let mut nesting: i128 = 0;
        let ghost mut used: int = 0;
        proof {
            lemma_path_used(orig);
            assert(orig.subrange(0, orig.len() as int) =~= orig);
            assert(path@ =~= seq![]);
            assert(after(seq![], 0, scan_path(orig, 0)) == scan_path(orig, 0)) by {
                match scan_path(orig, 0) {
                    Scan::Done { text, .. } => {
                        assert(seq![] + text =~= text);
                    },
                    _ => {},
                }
            }
        }
        loop
            invariant
                old(self)@ == orig,
                0 <= used <= orig.len(),
                orig.len() <= usize::MAX,
                self@ == orig.subrange(used, orig.len() as int),
                -used <= nesting <= used,
                scan_path(orig, 0) == after(path@, used as nat, scan_path(self@, nesting as int)),
                (used == 0) == (span is None),
                used > 0 ==> span == Some(orig[0].spec_span()),
            ensures
                old(self)@ == orig,
                0 <= used <= orig.len(),
                self@ == orig.subrange(used, orig.len() as int),
                (used == 0) == (span is None),
                used > 0 ==> span == Some(orig[0].spec_span()),
                scan_path(orig, 0) == (Scan::Done { text: path@, used: used as nat }),
            decreases self@.len(),
        {
            let ghost cur = self@;
            let ghost depth = nesting as int;
            match self.peek() {
                None => {
                    proof {
                        assert(path@ + seq![] =~= path@);
                    }
                    break;
                },
                Some(TokenTree::Punct(p)) => {
                    let p = *p;
                    if (p.ch == ',' || p.ch == ';') && nesting == 0 {
                        proof {
                            assert(path@ + seq![] =~= path@);
                        }
                        break;
                    }
                    if p.ch == '<' {
                        nesting = nesting + 1;
                    } else if p.ch == '>' && p.spacing == Spacing::Alone {
                        nesting = nesting - 1;
                    }
                    if span.is_none() {
                        span = Some(p.span);
                    }
                    let ghost before = path@;
                    push_char(&mut path, p.ch);
                    self.next();
                    proof {
                        lemma_after_after(before, used as nat, seq![p.ch], 1, scan_path(self@, nesting as int));
                        assert(before.push(p.ch) =~= before + seq![p.ch]);
                        used = used + 1;
                        assert(self@ =~= orig.subrange(used, orig.len() as int));
                    }
                },
                Some(TokenTree::Ident(i)) => {
                    if span.is_none() {
                        span = Some(i.span);
                    }
                    let ghost before = path@;
                    let ghost t = i.text@;
                    path.append(i.text.as_str());
                    self.next();
                    proof {
                        lemma_after_after(before, used as nat, t, 1, scan_path(self@, nesting as int));
                        used = used + 1;
                        assert(self@ =~= orig.subrange(used, orig.len() as int));
                    }
                },
                Some(TokenTree::Literal(l)) => {
                    let sp = l.span;
                    self.next();
                    proof {
                        assert(scan_path(cur, depth) == (Scan::Failed { failure: unexpected(sp), used: 1 }));
                        assert(scan_path(orig, 0) == (Scan::Failed { failure: unexpected(sp), used: (used + 1) as nat }));
                        assert(path_of(orig) == scan_path(orig, 0));
                        assert(self@ =~= orig.subrange(used + 1, orig.len() as int));
                    }
                    return Err(error(ErrorKind::UnexpectedToken, "Unexpected token", sp));
                },
                Some(TokenTree::Group(g)) => {
                    let delim = g.delimiter;
                    if delim != Delimiter::Parenthesis && delim != Delimiter::Bracket {
                        return Err(error(ErrorKind::UnexpectedToken, "Unexpected token", g.span));
                    }
                    let tok = self.next();
                    if let Some(TokenTree::Group(g)) = tok {
                        if span.is_none() {
                            span = Some(g.span);
                        }
                        let ghost inner_view = g.stream.trees@;
                        proof {
                            assert(cur[0] == orig[used]);
                            assert(decreases_to!(orig => orig[used]));
                            assert(decreases_to!(orig => inner_view));
                        }
                        let inner = g.stream.into_token_iter();
                        proof {
                            assert(decreases_to!(orig => inner@));
                            assert(decreases_to!(orig, 0nat => inner@, 3nat));
                        }
                        let rendered = if delim == Delimiter::Parenthesis {
                            render_tuple(inner)
                        } else {
                            render_array(inner)
                        };
                        match rendered {
                            Ok(t) => {
                                let ghost before = path@;
                                path.append(t.as_str());
                                proof {
                                    lemma_after_after(before, used as nat, t@, 1, scan_path(self@, nesting as int));
                                    used = used + 1;
                                    assert(self@ =~= orig.subrange(used, orig.len() as int));
                                }
                            },
                            Err(e) => {
                                proof {
                                    assert(self@ =~= orig.subrange(used + 1, orig.len() as int));
                                }
                                return Err(e);
                            },
                        }
                    }
                },
            }
        }
        match span {
            Some(s) => Ok((path, s)),
            None => Err(error(ErrorKind::UnexpectedEndOfStream, "Unexpected end of stream", Span::call_site())),
        }
    }
}

/// Renders the tokens of a parenthesised group as a tuple.
#[verifier::loop_isolation(false)]
#[verifier::rlimit(60)]
fn render_tuple(stream: TokenIter) -> (r: Result<String, ParseError>)
    ensures
        tuple_text(stream@) is Ok ==> r is Ok && r->Ok_0@ == tuple_text(stream@)->Ok_0,
        tuple_text(stream@) is Err ==> r is Err && r->Err_0@ == tuple_text(stream@)->Err_0,
    decreases stream@, 3nat,
{
    let ghost orig = stream@;
    let mut stream = stream;
    let mut text = String::from_str("(");
    let ghost mut acc: Seq<char> = seq![];
    proof {
        assert(orig.subrange(0, orig.len() as int) =~= orig);
        match tuple_items(orig) {
            Ok(t) => {
                assert(seq![] + t =~= t);
            },
            _ => {},
        }
    }
    while !stream.is_empty()
        invariant
            stream@.len() <= orig.len(),
            stream@ == orig.subrange(orig.len() - stream@.len(), orig.len() as int),
            text@ == "("@ + acc,
            tuple_items(orig) == prepend_items(acc, tuple_items(stream@)),
        decreases stream@.len(),
    {
        let ghost cur = stream@;
        proof {
            lemma_path_used(cur);
            if cur.len() == orig.len() {
                assert(cur =~= orig);
            } else {
                assert(decreases_to!(orig => cur));
            }
            assert(decreases_to!(orig, 3nat => cur, 0nat));
        }
        let (inner, _span) = match stream.parse_path() {
            Ok(x) => x,
            Err(e) => return Err(e),
        };
        let ghost used = path_of(cur).consumed() as int;
        text.append(inner.as_str());
        proof {
            assert(stream@ == cur.subrange(used, cur.len() as int));
            assert(stream@ =~= orig.subrange(orig.len() - stream@.len(), orig.len() as int));
        }
        if !stream.is_empty() {
            let ghost mid = stream@;
            proof {
                assert(mid[0] == cur[used]);
            }
            match stream.expect_punct(',') {
                Ok(()) => {},
                Err(e) => return Err(e),
            }
            text.append(", ");
            proof {
                let ghost old_acc = acc;
                acc = acc + inner@ + ", "@;
                assert(stream@ =~= cur.subrange(used + 1, cur.len() as int));
                assert(stream@ =~= orig.subrange(orig.len() - stream@.len(), orig.len() as int));
                match tuple_items(stream@) {
                    Ok(t) => {
                        assert(acc + t =~= old_acc + (inner@ + ", "@ + t));
                    },
                    _ => {},
                }
            }
        } else {
            proof {
                assert(tuple_items(stream@) == Ok::<Seq<char>, Failure>(seq![]));
                assert(acc + inner@ + seq![] =~= acc + inner@);
                acc = acc + inner@;
            }
        }
    }
    proof {
        assert(acc + seq![] =~= acc);
    }
    let n = text.as_str().unicode_len();
    if n > 0 && text.as_str().get_char(n - 1) == ' ' {
        pop_char(&mut text);
    }
    text.append(")");
    Ok(text)
}

/// Renders the tokens of a bracketed group as an array type.
fn render_array(stream: TokenIter) -> (r: Result<String, ParseError>)
    ensures
        array_text(stream@) is Ok ==> r is Ok && r->Ok_0@ == array_text(stream@)->Ok_0,
        array_text(stream@) is Err ==> r is Err && r->Err_0@ == array_text(stream@)->Err_0,
    decreases stream@, 2nat,
{
    let ghost orig = stream@;
    let mut stream = stream;
    let (inner, _span) = match stream.parse_path() {
        Ok(x) => x,
        Err(e) => return Err(e),
    };
    match stream.expect_punct(';') {
        Ok(()) => {},
        Err(e) => return Err(e),
    }
    let lit = match stream.try_lit() {
        Ok(l) => l,
        Err(e) => return Err(e),
    };
    let mut text = String::from_str("[");
    text.append(inner.as_str());
    text.append("; ");
    text.append(lit.repr.as_str());
    text.append("]");
    Ok(text)
}

} // verus!
