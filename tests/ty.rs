use myn::token::{Delimiter, Ident, Literal, Punct, Spacing, Span, TokenStream, TokenTree};
use myn::ty::{ErrorKind, TokenIter};
use std::str::FromStr;

fn convert(stream: proc_macro2::TokenStream, next_span: &mut usize) -> TokenStream {
    let mut trees = Vec::new();
    for tree in stream {
        let span = Span::Located(*next_span);
        *next_span += 1;
        trees.push(match tree {
            proc_macro2::TokenTree::Group(g) => {
                let delimiter = match g.delimiter() {
                    proc_macro2::Delimiter::Parenthesis => Delimiter::Parenthesis,
                    proc_macro2::Delimiter::Brace => Delimiter::Brace,
                    proc_macro2::Delimiter::Bracket => Delimiter::Bracket,
                    proc_macro2::Delimiter::None => Delimiter::Invisible,
                };
                let stream = convert(g.stream(), next_span);
                TokenTree::Group(myn::token::Group { delimiter, stream, span })
            }
            proc_macro2::TokenTree::Ident(i) => TokenTree::Ident(Ident { text: i.to_string(), span }),
            proc_macro2::TokenTree::Punct(p) => {
                let spacing = match p.spacing() {
                    proc_macro2::Spacing::Alone => Spacing::Alone,
                    proc_macro2::Spacing::Joint => Spacing::Joint,
                };
                TokenTree::Punct(Punct { ch: p.as_char(), spacing, span })
            }
            proc_macro2::TokenTree::Literal(l) => TokenTree::Literal(Literal { repr: l.to_string(), span }),
        });
    }
    TokenStream { trees }
}

fn lex(source: &str) -> TokenIter {
    let mut next_span = 0;
    convert(proc_macro2::TokenStream::from_str(source).unwrap(), &mut next_span).into_token_iter()
}

#[test]
fn test_tokeniter_parse_path() {
    let mut input = lex("foo::bar");
    assert_eq!(input.parse_path().unwrap().0, "foo::bar");
    assert!(input.next().is_none());

    let mut input = lex("foo::bar<baz>");
    assert_eq!(input.parse_path().unwrap().0, "foo::bar<baz>");
    assert!(input.next().is_none());

    let mut input = lex("foo::bar<()>");
    assert_eq!(input.parse_path().unwrap().0, "foo::bar<()>");
    assert!(input.next().is_none());

    let mut input = lex("foo::bar<(foo, bar::baz<T>)>");
    assert_eq!(input.parse_path().unwrap().0, "foo::bar<(foo, bar::baz<T>)>");
    assert!(input.next().is_none());

    let mut input = lex("foo<(bar, [i32; 4])>");
    assert_eq!(input.parse_path().unwrap().0, "foo<(bar, [i32; 4])>");
    assert!(input.next().is_none());

    let mut input = lex("(u8, )");
    assert_eq!(input.parse_path().unwrap().0, "(u8,)");
    assert!(input.next().is_none());
}

#[test]
fn test_tokeniter_expect_group() {
    let mut input = lex("{ foo }");
    assert!(input.expect_group(Delimiter::Brace).is_ok());
    assert!(input.next().is_none());

    let mut input = lex("( foo )");
    assert!(input.expect_group(Delimiter::Brace).is_err());
    assert!(input.next().is_none());

    let mut input = lex("foo");
    assert!(input.expect_group(Delimiter::Brace).is_err());
    assert!(input.next().is_none());
}

#[test]
fn test_tokeniter_expect_ident() {
    let mut input = lex("foo");
    assert!(input.expect_ident("foo").is_ok());
    assert!(input.next().is_none());

    let mut input = lex("bar");
    assert!(input.expect_ident("foo").is_err());
    assert!(input.next().is_none());

    let mut input = lex("!");
    assert!(input.expect_ident("foo").is_err());
    assert!(input.next().is_none());
}

#[test]
fn test_tokeniter_expect_punct() {
    let mut input = lex("!");
    assert!(input.expect_punct('!').is_ok());
    assert!(input.next().is_none());

    let mut input = lex("#");
    assert!(input.expect_punct('!').is_err());
    assert!(input.next().is_none());

    let mut input = lex("foo");
    assert!(input.expect_punct('!').is_err());
    assert!(input.next().is_none());
}

#[test]
fn test_tokeniter_try_group() {
    let mut input = lex("{ foo }");
    let expected = Ident::new("foo", Span::call_site());

    let group = input.try_group().unwrap();
    let tree = match group.stream.trees.into_iter().next() {
        Some(TokenTree::Ident(ident)) => ident,
        _ => panic!(),
    };
    assert_eq!(tree, expected);
}

#[test]
fn test_tokeniter_try_group_peek() {
    let mut input = lex("!");

    assert!(input.try_group().is_err());
    assert!(input.next().is_some());
    assert!(input.next().is_none());
}

#[test]
fn test_tokeniter_try_ident() {
    let mut input = lex("foo");
    let expected = Ident::new("foo", Span::call_site());

    assert_eq!(input.try_ident().unwrap(), expected);
}

#[test]
fn test_tokeniter_try_ident_peek() {
    let mut input = lex("!");

    assert!(input.try_ident().is_err());
    assert!(input.next().is_some());
    assert!(input.next().is_none());
}

#[test]
fn test_tokeniter_try_lit() {
    let mut input = lex("'!'");
    let expected = "'!'";

    assert_eq!(input.try_lit().unwrap().repr, expected);
}

#[test]
fn test_tokeniter_try_lit_peek() {
    let mut input = lex("!");

    assert!(input.try_lit().is_err());
    assert!(input.next().is_some());
    assert!(input.next().is_none());
}

#[test]
fn test_tokeniter_try_punct() {
    let mut input = lex("!");
    let expected = '!';

    assert_eq!(input.try_punct().unwrap().as_char(), expected);
}

#[test]
fn test_tokeniter_try_punct_peek() {
    let mut input = lex("foo");

    assert!(input.try_punct().is_err());
    assert!(input.next().is_some());
    assert!(input.next().is_none());
}

#[test]
fn parse_path_array() {
    let mut input = lex("[i32; 4]");
    assert_eq!(input.parse_path().unwrap().0, "[i32; 4]");
    assert!(input.next().is_none());
}

#[test]
fn parse_path_stops_at_top_level_comma() {
    let mut input = lex("a::b, c");
    let (path, span) = input.parse_path().unwrap();
    assert_eq!(path, "a::b");
    assert_eq!(span, Span::Located(0));
    assert_eq!(input.try_punct().unwrap().as_char(), ',');
    assert_eq!(input.parse_path().unwrap().0, "c");
}

#[test]
fn parse_path_tuple_elements_are_joined() {
    let mut input = lex("(a, b, c)");
    assert_eq!(input.parse_path().unwrap().0, "(a, b, c)");
}

#[test]
fn parse_path_empty_is_end_of_stream() {
    let mut input = lex("");
    let err = input.parse_path().unwrap_err();
    assert_eq!(err.kind, ErrorKind::UnexpectedEndOfStream);
    assert_eq!(err.message, "Unexpected end of stream");
    assert_eq!(err.span, Span::CallSite);

    let mut input = lex("; x");
    assert_eq!(input.parse_path().unwrap_err().kind, ErrorKind::UnexpectedEndOfStream);
    assert_eq!(input.try_punct().unwrap().as_char(), ';');
}

#[test]
fn parse_path_rejects_top_level_literal() {
    let mut input = lex("a 5 b");
    let err = input.parse_path().unwrap_err();
    assert_eq!(err.kind, ErrorKind::UnexpectedToken);
    assert_eq!(err.message, "Unexpected token");
    assert_eq!(err.span, Span::Located(1));
    assert_eq!(input.try_ident().unwrap().text, "b");
}

#[test]
fn parse_path_rejects_brace_group_without_consuming_it() {
    let mut input = lex("a { b }");
    let err = input.parse_path().unwrap_err();
    assert_eq!(err.kind, ErrorKind::UnexpectedToken);
    assert!(input.try_group().is_ok());
}

#[test]
fn parse_path_array_without_semicolon() {
    let mut input = lex("[i32, 4]");
    let err = input.parse_path().unwrap_err();
    assert_eq!(err.kind, ErrorKind::ExpectedSpecificToken);
    assert_eq!(err.message, "Expected `;`");
}

#[test]
fn parse_path_array_without_length() {
    let mut input = lex("[i32; N]");
    let err = input.parse_path().unwrap_err();
    assert_eq!(err.kind, ErrorKind::UnexpectedToken);
    assert_eq!(err.message, "Expected literal");
}

#[test]
fn expect_group_messages() {
    let mut input = lex("( foo )");
    let err = input.expect_group(Delimiter::Brace).unwrap_err();
    assert_eq!(err.kind, ErrorKind::ExpectedSpecificToken);
    assert_eq!(err.message, "Expected `{`");
    assert_eq!(err.span, Span::Located(0));

    let mut input = lex("");
    let err = input.expect_group(Delimiter::Bracket).unwrap_err();
    assert_eq!(err.kind, ErrorKind::UnexpectedToken);
    assert_eq!(err.message, "Expected group");
    assert_eq!(err.span, Span::CallSite);
    assert!(input.next().is_none());
}

#[test]
fn expect_group_gives_inner_tokens() {
    let mut input = lex("[a b] c");
    let mut inner = input.expect_group(Delimiter::Bracket).unwrap();
    assert_eq!(inner.len(), 2);
    assert!(inner.expect_ident("a").is_ok());
    assert!(inner.expect_ident("b").is_ok());
    assert!(input.expect_ident("c").is_ok());
}

#[test]
fn expect_ident_and_punct_messages() {
    let mut input = lex("bar");
    let err = input.expect_ident("foo").unwrap_err();
    assert_eq!(err.kind, ErrorKind::ExpectedSpecificToken);
    assert_eq!(err.message, "Expected `foo`");

    let mut input = lex("# x");
    let err = input.expect_punct('!').unwrap_err();
    assert_eq!(err.kind, ErrorKind::ExpectedSpecificToken);
    assert_eq!(err.message, "Expected `!`");
    assert!(input.next().is_some());
    assert!(input.next().is_none());
}

#[test]
fn try_matchers_leave_cursor_on_mismatch() {
    let mut input = lex("foo");
    assert!(input.try_group().is_err());
    assert!(input.try_lit().is_err());
    assert!(input.try_punct().is_err());
    assert_eq!(input.len(), 1);
    let err = input.try_lit().unwrap_err();
    assert_eq!(err.message, "Expected literal");
    assert_eq!(err.span, Span::Located(0));
    assert!(input.next().is_some());
    assert!(input.next().is_none());
}

#[test]
fn parse_visibility_forms() {
    let mut input = lex("pub(crate) struct");
    assert!(input.parse_visibility().is_ok());
    assert!(input.expect_ident("struct").is_ok());

    let mut input = lex("pub struct");
    assert!(input.parse_visibility().is_ok());
    assert!(input.expect_ident("struct").is_ok());

    let mut input = lex("struct");
    assert!(input.parse_visibility().is_ok());
    assert_eq!(input.len(), 1);
}

#[test]
fn parse_attributes_collects_names_and_bodies() {
    let mut input = lex("#[doc = \"hello\"] #[derive(Debug)] struct");
    let attrs = input.parse_attributes().unwrap();
    assert_eq!(attrs.len(), 2);
    assert_eq!(attrs[0].name.text, "doc");
    assert_eq!(attrs[0].tree.len(), 2);
    assert_eq!(attrs[1].name.text, "derive");
    assert!(input.expect_ident("struct").is_ok());
}

#[test]
fn parse_attributes_errors() {
    let mut input = lex("# foo");
    let err = input.parse_attributes().unwrap_err();
    assert_eq!(err.message, "Expected group");
    assert!(input.next().is_none());

    let mut input = lex("#(foo)");
    let err = input.parse_attributes().unwrap_err();
    assert_eq!(err.kind, ErrorKind::ExpectedSpecificToken);
    assert_eq!(err.message, "Expected `[`");

    let mut input = lex("#[5]");
    let err = input.parse_attributes().unwrap_err();
    assert_eq!(err.message, "Expected identifier");
}

#[test]
fn parse_path_separator_inside_angle_brackets() {
    let mut input = lex("a<b, c> , d");
    assert_eq!(input.parse_path().unwrap().0, "a<b,c>");
    assert_eq!(input.try_punct().unwrap().as_char(), ',');
    assert!(input.expect_ident("d").is_ok());
}

#[test]
fn parse_path_joint_close_bracket_does_not_close() {
    // A `>` glued to the next punctuation character counts as the first half of a compound
    // glyph, so the depth stays open and the `,` after it is taken into the path.
    let mut input = lex("a<b>, c");
    assert_eq!(input.parse_path().unwrap().0, "a<b>,c");
    assert!(input.next().is_none());
}
