//! Decoding of character and string literals from their raw text, and the inverse quoting.

use crate::text::push_char;
use crate::token::{Literal, Span};
use crate::ty::{failure, ErrorKind, Failure, ParseError};
use vstd::prelude::*;
use vstd::string::StrSliceExecFns;

verus! {

/// `s` with every occurrence of `from` replaced by `to`, scanning left to right without
/// overlaps (as `str::replace` does).
pub open spec fn replace_all(s: Seq<char>, from: Seq<char>, to: Seq<char>) -> Seq<char>
    decreases s.len(),
{
    if from.len() == 0 || s.len() < from.len() {
        s
    } else if s.subrange(0, from.len() as int) == from {
        to + replace_all(s.subrange(from.len() as int, s.len() as int), from, to)
    } else {
        seq![s[0]] + replace_all(s.subrange(1, s.len() as int), from, to)
    }
}

/// The escapes of a string literal, decoded one after the other over the whole text:
/// `\"`, `\n`, `\r`, `\t`, `\'`, and last `\\`.
pub open spec fn unescape(s: Seq<char>) -> Seq<char> {
    let s1 = replace_all(s, seq!['\\', '"'], seq!['"']);
    let s2 = replace_all(s1, seq!['\\', 'n'], seq!['\n']);
    let s3 = replace_all(s2, seq!['\\', 'r'], seq!['\r']);
    let s4 = replace_all(s3, seq!['\\', 't'], seq!['\t']);
    let s5 = replace_all(s4, seq!['\\', '\''], seq!['\'']);
    replace_all(s5, seq!['\\', '\\'], seq!['\\'])
}

/// Whether `s` is at least two characters long and starts and ends with `q`.
pub open spec fn quoted_by(s: Seq<char>, q: char) -> bool {
    s.len() >= 2 && s[0] == q && s.last() == q
}

/// The character of a character literal's raw text: the one right after the opening quote.
pub open spec fn char_of(s: Seq<char>) -> Result<char, Failure> {
    if quoted_by(s, '\'') {
        Ok(s[1])
    } else {
        Err(failure(ErrorKind::InvalidLiteralForm, "Expected char literal"@, Span::CallSite))
    }
}

/// The string of a string literal's raw text: the text between the quotes, unescaped.
pub open spec fn string_of(s: Seq<char>) -> Result<Seq<char>, Failure> {
    if quoted_by(s, '"') {
        Ok(unescape(s.subrange(1, s.len() - 1)))
    } else {
        Err(failure(ErrorKind::InvalidLiteralForm, "Expected string literal"@, Span::CallSite))
    }
}

/// The characters of `s`, in order.
fn chars_of(s: &str) -> (r: Vec<char>)
    ensures
        r@ == s@,
{
    let n = s.unicode_len();
    let mut r: Vec<char> = Vec::new();
    let mut i: usize = 0;
    while i < n
        invariant
            n == s@.len(),
            i <= n,
            r@ == s@.subrange(0, i as int),
        decreases n - i,
    {
        r.push(s.get_char(i));
        i += 1;
        assert(r@ =~= s@.subrange(0, i as int));
    }
    assert(r@ =~= s@);
    r
}

/// A string holding the characters of `v`.
fn string_from(v: &Vec<char>) -> (r: String)
    ensures
        r@ == v@,
{
    let mut r = String::new();
    let mut i: usize = 0;
    while i < v.len()
        invariant
            i <= v@.len(),
            r@ == v@.subrange(0, i as int),
        decreases v@.len() - i,
    {
        push_char(&mut r, v[i]);
        i += 1;
        assert(r@ =~= v@.subrange(0, i as int));
    }
    assert(r@ =~= v@);
    r
}

proof fn lemma_replace_step(s: Seq<char>, from: Seq<char>, to: Seq<char>, i: int, done: Seq<char>)
    requires
        0 <= i <= s.len(),
        from.len() > 0,
        replace_all(s, from, to) == done + replace_all(s.subrange(i, s.len() as int), from, to),
    ensures
        s.len() - i < from.len() ==> replace_all(s, from, to) == done + s.subrange(i, s.len() as int),
        s.len() - i >= from.len() && s.subrange(i, i + from.len()) == from ==> replace_all(s, from, to)
            == (done + to) + replace_all(s.subrange(i + from.len(), s.len() as int), from, to),
        s.len() - i >= from.len() && s.subrange(i, i + from.len()) != from ==> replace_all(s, from, to)
            == done.push(s[i]) + replace_all(s.subrange(i + 1, s.len() as int), from, to),
{
    let t = s.subrange(i, s.len() as int);
    if t.len() >= from.len() {
        assert(t.subrange(0, from.len() as int) =~= s.subrange(i, i + from.len()));
        assert(t.subrange(from.len() as int, t.len() as int) =~= s.subrange(i + from.len(), s.len() as int));
        assert(t.subrange(1, t.len() as int) =~= s.subrange(i + 1, s.len() as int));
        let u = replace_all(s.subrange(i + from.len(), s.len() as int), from, to);
        let w = replace_all(s.subrange(i + 1, s.len() as int), from, to);
        assert(done + (to + u) =~= (done + to) + u);
        assert(done + (seq![s[i]] + w) =~= done.push(s[i]) + w);
    }
}

/// `s` with every `a b` replaced by `to`, scanning left to right.
fn replace_pair(s: &Vec<char>, a: char, b: char, to: char) -> (r: Vec<char>)
    ensures
        r@ == replace_all(s@, seq![a, b], seq![to]),
{
    let ghost from = seq![a, b];
    let n = s.len();
    let mut r: Vec<char> = Vec::new();
    let mut i: usize = 0;
    assert(s@.subrange(0, n as int) =~= s@);
    assert(r@ + s@ =~= s@);
    while i < n
        invariant
            from == seq![a, b],
            n == s@.len(),
            i <= n,
            replace_all(s@, from, seq![to]) == r@ + replace_all(s@.subrange(i as int, n as int), from, seq![to]),
        decreases n - i,
    {
        proof {
            lemma_replace_step(s@, from, seq![to], i as int, r@);
        }
        if i + 1 < n && s[i] == a && s[i + 1] == b {
            assert(s@.subrange(i as int, i + 2) =~= seq![a, b]);
            r.push(to);
            i += 2;
        } else if i + 1 < n {
            assert(s@.subrange(i as int, i + 2) != from) by {
                if s@.subrange(i as int, i + 2) == from {
                    assert(s@.subrange(i as int, i + 2)[0] == a);
                    assert(s@.subrange(i as int, i + 2)[1] == b);
                }
            }
            r.push(s[i]);
            i += 1;
        } else {
            let ghost before = r@;
            r.push(s[i]);
            i += 1;
            assert(r@ + replace_all(s@.subrange(i as int, n as int), from, seq![to]) =~= before + s@.subrange(
                i - 1,
                n as int,
            ));
        }
    }
    assert(r@ + replace_all(s@.subrange(n as int, n as int), from, seq![to]) =~= r@);
    r
}

/// How one character is written inside a string literal.
pub open spec fn escape_char(c: char) -> Seq<char> {
    if c == '"' {
        seq!['\\', '"']
    } else if c == '\\' {
        seq!['\\', '\\']
    } else if c == '\n' {
        seq!['\\', 'n']
    } else if c == '\r' {
        seq!['\\', 'r']
    } else if c == '\t' {
        seq!['\\', 't']
    } else if c == '\0' {
        seq!['\\', '0']
    } else {
        seq![c]
    }
}

/// `s` with each character escaped as in a string literal.
pub open spec fn escaped(s: Seq<char>) -> Seq<char>
    decreases s.len(),
{
    if s.len() == 0 {
        seq![]
    } else {
        escaped(s.drop_last()) + escape_char(s.last())
    }
}

/// The raw text of a string literal holding `s`.
pub open spec fn quoted(s: Seq<char>) -> Seq<char> {
    seq!['"'] + escaped(s) + seq!['"']
}

impl Literal {
    /// A string literal holding `s`, positioned at the call site.
    pub fn string(s: &str) -> (r: Literal)
        ensures
            r.repr@ == quoted(s@),
            r.span == Span::CallSite,
    {
        let n = s.unicode_len();
        let mut repr = String::new();
        push_char(&mut repr, '"');
        let mut i: usize = 0;
        while i < n
            invariant
                n == s@.len(),
                i <= n,
                repr@ == seq!['"'] + escaped(s@.subrange(0, i as int)),
            decreases n - i,
        {
            let c = s.get_char(i);
            let ghost before = repr@;
            if c == '"' {
                push_char(&mut repr, '\\');
                push_char(&mut repr, '"');
            } else if c == '\\' {
                push_char(&mut repr, '\\');
                push_char(&mut repr, '\\');
            } else if c == '\n' {
                push_char(&mut repr, '\\');
                push_char(&mut repr, 'n');
            } else if c == '\r' {
                push_char(&mut repr, '\\');
                push_char(&mut repr, 'r');
            } else if c == '\t' {
                push_char(&mut repr, '\\');
                push_char(&mut repr, 't');
            } else if c == '\0' {
                push_char(&mut repr, '\\');
                push_char(&mut repr, '0');
            } else {
                push_char(&mut repr, c);
            }
            proof {
                let t = s@.subrange(0, i + 1);
                assert(t.drop_last() =~= s@.subrange(0, i as int));
                assert(repr@ =~= before + escape_char(c));
                assert(repr@ =~= seq!['"'] + escaped(t));
            }
            i += 1;
        }
        push_char(&mut repr, '"');
        assert(s@.subrange(0, n as int) =~= s@);
        assert(repr@ =~= quoted(s@));
        Literal { repr, span: Span::CallSite }
    }

    /// Decodes a character literal: the character right after the opening `'`.
    pub fn as_char(&self) -> (r: Result<char, ParseError>)
        ensures
            char_of(self.repr@) is Ok ==> r == Ok::<char, ParseError>(char_of(self.repr@)->Ok_0),
            char_of(self.repr@) is Err ==> r is Err && r->Err_0@ == failure(
                ErrorKind::InvalidLiteralForm,
                "Expected char literal"@,
                self.span,
            ),
    {
        let s = self.repr.as_str();
        let n = s.unicode_len();
        if n >= 2 && s.get_char(0) == '\'' && s.get_char(n - 1) == '\'' {
            Ok(s.get_char(1))
        } else {
            Err(crate::ty::error(ErrorKind::InvalidLiteralForm, "Expected char literal", self.span))
        }
    }

    /// Decodes a string literal: the text between the `"` quotes, with the escapes `\"`, `\n`,
    /// `\r`, `\t`, `\'` and `\\` replaced in that order, each over the whole text.
    pub fn as_string(&self) -> (r: Result<String, ParseError>)
        ensures
            string_of(self.repr@) is Ok ==> r is Ok && r->Ok_0@ == string_of(self.repr@)->Ok_0,
            string_of(self.repr@) is Err ==> r is Err && r->Err_0@ == failure(
                ErrorKind::InvalidLiteralForm,
                "Expected string literal"@,
                self.span,
            ),
    {
        let s = chars_of(self.repr.as_str());
        let n = s.len();
        if !(n >= 2 && s[0] == '"' && s[n - 1] == '"') {
            return Err(crate::ty::error(ErrorKind::InvalidLiteralForm, "Expected string literal", self.span));
        }
        let mut content: Vec<char> = Vec::new();
        let mut i: usize = 1;
        while i < n - 1
            invariant
                n == s@.len(),
                n >= 2,
                1 <= i <= n - 1,
                content@ == s@.subrange(1, i as int),
            decreases n - 1 - i,
        {
            content.push(s[i]);
            i += 1;
            assert(content@ =~= s@.subrange(1, i as int));
        }
        let s1 = replace_pair(&content, '\\', '"', '"');
        let s2 = replace_pair(&s1, '\\', 'n', '\n');
        let s3 = replace_pair(&s2, '\\', 'r', '\r');
        let s4 = replace_pair(&s3, '\\', 't', '\t');
        let s5 = replace_pair(&s4, '\\', '\'', '\'');
        let s6 = replace_pair(&s5, '\\', '\\', '\\');
        Ok(string_from(&s6))
    }
}

} // verus!
