//! Lexer and parser behaviour: token streams, fragment construction, and
//! parse diagnostics.

use docquery::lexer::{lex, Token};
use docquery::lexer::Token::{CloseBracket, Dot, Field, Index, OpenBracket, QuotedField};
use docquery::parse_query::{from_quoted, parse};
use docquery::query::QueryFragment;

#[test]
fn lexer() {
    let lexemes = lex(r#". [ "kubernetes_clusters" ].id.[0 ]"#);
    let tokens: Vec<Token> = lexemes.iter().map(|l| l.token).collect();
    assert_eq!(
        tokens,
        [
            Dot,
            OpenBracket,
            QuotedField,
            CloseBracket,
            Dot,
            Field,
            Dot,
            OpenBracket,
            Index,
            CloseBracket
        ]
    );
}

#[test]
fn parser() {
    let (query, errors) = parse(r#".["field name with spaces"]"#);
    assert_eq!(
        query,
        QueryFragment::field(
            "field name with spaces".into(),
            true,
            QueryFragment::accept()
        )
    );
    assert!(errors.is_empty());

    let (query, errors) = parse(r#".[1]"#);
    assert_eq!(query, QueryFragment::index_array(1, QueryFragment::accept()));
    assert!(errors.is_empty());
}

#[test]
fn parse_query_lexer() {
    let lexemes = lex(r#". [ "kubernetes_clusters" ].id.[0 ]"#);
    let tokens: Vec<Token> = lexemes.iter().map(|l| l.token).collect();
    assert_eq!(
        tokens,
        [
            Dot,
            OpenBracket,
            QuotedField,
            CloseBracket,
            Dot,
            Field,
            Dot,
            OpenBracket,
            Index,
            CloseBracket
        ]
    );
}

#[test]
fn parse_query_parser() {
    let (query, errors) = parse(r#".["field name with spaces"]"#);
    assert_eq!(
        query,
        QueryFragment::field(
            "field name with spaces".into(),
            true,
            QueryFragment::accept()
        )
    );
    assert!(errors.is_empty());

    let (query, errors) = parse(r#".[1]"#);
    assert_eq!(query, QueryFragment::index_array(1, QueryFragment::accept()));
    assert!(errors.is_empty());
}

#[test]
fn lexer_spans() {
    let lexemes = lex(".ab");
    assert_eq!(lexemes.len(), 2);
    assert_eq!((lexemes[0].start, lexemes[0].end), (0, 1));
    assert_eq!((lexemes[1].start, lexemes[1].end), (1, 3));
}

#[test]
fn lexer_unrecognized_character() {
    let lexemes = lex(".a?b");
    let tokens: Vec<Token> = lexemes.iter().map(|l| l.token).collect();
    assert_eq!(tokens, [Token::Dot, Token::Field, Token::Error, Token::Field]);
}

#[test]
fn lexer_unterminated_quote() {
    let lexemes = lex(r#"."abc"#);
    let tokens: Vec<Token> = lexemes.iter().map(|l| l.token).collect();
    assert_eq!(tokens, [Token::Dot, Token::Error]);
    assert_eq!((lexemes[1].start, lexemes[1].end), (1, 5));
}

// Parsing is a faithful inverse of fragment construction.
#[test]
fn parse_is_fragment_construction() {
    let (query, errors) = parse(".foo.[3].bar");
    assert!(errors.is_empty());
    assert_eq!(
        query,
        QueryFragment::field(
            "foo".into(),
            false,
            QueryFragment::index_array(
                3,
                QueryFragment::field("bar".into(), false, QueryFragment::accept())
            )
        )
    );
}

// Quoted-field round trip: the quotes are stripped and the flag kept.
#[test]
fn parse_quoted_field_round_trip() {
    let (query, errors) = parse(r#".["a b"]"#);
    assert!(errors.is_empty());
    assert_eq!(
        query,
        QueryFragment::field("a b".into(), true, QueryFragment::accept())
    );
}

#[test]
fn parse_empty_input_is_accept() {
    let (query, errors) = parse("");
    assert!(errors.is_empty());
    assert_eq!(query, QueryFragment::accept());
}

#[test]
fn parse_empty_bracket_is_collect() {
    let (query, errors) = parse(".xs.[]");
    assert!(errors.is_empty());
    assert_eq!(
        query,
        QueryFragment::field(
            "xs".into(),
            false,
            QueryFragment::collect_array(QueryFragment::accept())
        )
    );
}

#[test]
fn parse_missing_leading_dot() {
    let (_, errors) = parse("foo");
    assert_eq!(errors.len(), 1);
    assert_eq!(errors[0].message, "0..3: expected Dot, got Field");
}

#[test]
fn parse_unterminated_bracket() {
    let (_, errors) = parse(".[1");
    assert_eq!(errors.len(), 1);
    assert_eq!(errors[0].message, "1..3: expected an ']', got EOF");
}

#[test]
fn parse_bad_bracket_body() {
    let (_, errors) = parse(".[x]");
    assert_eq!(errors.len(), 1);
    assert_eq!(
        errors[0].message,
        "1..4: expected an index or a quoted field inside indexing, got Field"
    );
}

#[test]
fn parse_trailing_dot() {
    let (_, errors) = parse(".a.");
    assert_eq!(errors.len(), 1);
    assert_eq!(errors[0].message, "3..3: expected '[' or an identifier, got EOF");
}

#[test]
fn parse_index_too_large() {
    // one above the largest machine word
    let (_, errors) = parse(".[18446744073709551616]");
    assert_eq!(errors.len(), 1);
    assert_eq!(errors[0].message, "2..22: the index is too large");
}

#[test]
fn parse_recovers_after_error() {
    // the bad step is reported, the good one still parsed
    let (query, errors) = parse(".[x].ok");
    assert_eq!(errors.len(), 1);
    assert_eq!(
        query,
        QueryFragment::field("ok".into(), false, QueryFragment::accept())
    );
}

#[test]
fn from_quoted_escapes() {
    assert_eq!(from_quoted(r#"a\"b"#), "a\"b");
    assert_eq!(from_quoted(r#"\\"#), "\\");
    assert_eq!(from_quoted("plain"), "plain");
    // a trailing lone backslash is dropped
    assert_eq!(from_quoted("x\\"), "x");
    // a backslash escapes any character, not only quotes
    assert_eq!(from_quoted(r#"\a"#), "a");
}
