use myn::token::{Delimiter, Ident, Literal, Punct, Spacing, Span, TokenStream, TokenTree};
use myn::ty::{Attribute, ErrorKind, ParseError};
use myn::utils::{get_doc_comment, spanned_error};

fn lit(repr: &str) -> Literal {
    Literal { repr: repr.to_string(), span: Span::Located(7) }
}

fn attr(name: &str, body: Vec<TokenTree>) -> Attribute {
    Attribute { name: Ident::new(name, Span::call_site()), tree: TokenStream { trees: body }.into_token_iter() }
}

fn eq_sign() -> TokenTree {
    TokenTree::Punct(Punct::new('=', Spacing::Alone))
}

#[test]
fn string_literal_decodes_newline_escape() {
    let decoded = lit("\"a\\nb\"").as_string().unwrap();
    assert_eq!(decoded, "a\nb");
    assert_eq!(decoded.chars().count(), 3);
}

#[test]
fn string_literal_decodes_each_escape() {
    assert_eq!(lit(r#""q\"r\rt\t'\'b\\""#).as_string().unwrap(), "q\"r\rt\t''b\\");
    assert_eq!(lit("\"\"").as_string().unwrap(), "");
}

#[test]
fn string_literal_replacements_run_in_order() {
    // `\\n` is `\` `\` `n`: the `\n` in it is replaced before `\\` is looked at.
    assert_eq!(lit(r#""\\n""#).as_string().unwrap(), "\\\n");
}

#[test]
fn string_literal_rejects_other_forms() {
    for repr in ["'a'", "abc", "\"", "\"abc"] {
        let err = lit(repr).as_string().unwrap_err();
        assert_eq!(err.kind, ErrorKind::InvalidLiteralForm);
        assert_eq!(err.message, "Expected string literal");
        assert_eq!(err.span, Span::Located(7));
    }
}

#[test]
fn char_literal_decodes() {
    assert_eq!(lit("'!'").as_char().unwrap(), '!');
    assert_eq!(lit("'\\n'").as_char().unwrap(), '\\');
}

#[test]
fn char_literal_rejects_unquoted() {
    for repr in ["!", "'", "\"a\"", "'a"] {
        let err = lit(repr).as_char().unwrap_err();
        assert_eq!(err.kind, ErrorKind::InvalidLiteralForm);
        assert_eq!(err.message, "Expected char literal");
        assert_eq!(err.span, Span::Located(7));
    }
}

#[test]
fn string_literal_quoting_escapes() {
    assert_eq!(Literal::string("a\"b\\c\nd").repr, r#""a\"b\\c\nd""#);
    assert_eq!(Literal::string("").repr, "\"\"");
    assert_eq!(Literal::string("\r\t\0").repr, r#""\r\t\0""#);
}

#[test]
fn doc_comment_extracts_lines() {
    let attrs = vec![attr("doc", vec![eq_sign(), TokenTree::Literal(lit("\"hello\""))])];
    assert_eq!(get_doc_comment(&attrs), vec!["hello".to_string()]);
}

#[test]
fn doc_comment_skips_other_shapes() {
    let attrs = vec![
        attr("doc", vec![TokenTree::Literal(lit("\"no equals\""))]),
        attr("derive", vec![eq_sign(), TokenTree::Literal(lit("\"other\""))]),
        attr("doc", vec![eq_sign(), TokenTree::Literal(lit("\" first\""))]),
        attr("doc", vec![eq_sign(), TokenTree::Literal(lit("'c'"))]),
        attr("doc", vec![eq_sign()]),
        attr("doc", vec![eq_sign(), TokenTree::Literal(lit("\"second\""))]),
    ];
    assert_eq!(get_doc_comment(&attrs), vec![" first".to_string(), "second".to_string()]);
    assert!(get_doc_comment(&[]).is_empty());
}

#[test]
fn spanned_error_builds_compile_error() {
    let stream = spanned_error("bad \"thing\"", Span::Located(3));
    assert_eq!(stream.trees.len(), 4);
    match &stream.trees[0] {
        TokenTree::Ident(i) => {
            assert_eq!(i.text, "compile_error");
            assert_eq!(i.span, Span::Located(3));
        }
        _ => panic!(),
    }
    match &stream.trees[1] {
        TokenTree::Punct(p) => assert_eq!((p.ch, p.spacing), ('!', Spacing::Alone)),
        _ => panic!(),
    }
    match &stream.trees[2] {
        TokenTree::Group(g) => {
            assert_eq!(g.delimiter, Delimiter::Parenthesis);
            assert_eq!(g.span, Span::Located(3));
            assert_eq!(g.stream.trees.len(), 1);
            match &g.stream.trees[0] {
                TokenTree::Literal(l) => assert_eq!(l.repr, r#""bad \"thing\"""#),
                _ => panic!(),
            }
        }
        _ => panic!(),
    }
    match &stream.trees[3] {
        TokenTree::Punct(p) => assert_eq!(p.ch, ';'),
        _ => panic!(),
    }
}

#[test]
fn parse_error_to_compile_error() {
    let err = ParseError { kind: ErrorKind::UnexpectedToken, message: "oops".to_string(), span: Span::Located(1) };
    let stream = err.to_compile_error();
    match &stream.trees[2] {
        TokenTree::Group(g) => match &g.stream.trees[0] {
            TokenTree::Literal(l) => assert_eq!(l.repr, "\"oops\""),
            _ => panic!(),
        },
        _ => panic!(),
    }
}
