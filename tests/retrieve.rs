use kozo::parser::SyntaxError;
use kozo::retrieve;
use kozo::retrieve::Retrieve;
use kozo::token::Token;

fn id(s: &str) -> Token {
    Token::Ident(s.to_string())
}

fn p(c: char) -> Token {
    Token::Punct(c, false)
}

fn binding(name: &str, target: &str) -> Vec<Token> {
    vec![id("let"), id(name), p('='), id(target), p('.'), id(name), p(';')]
}

#[test]
fn retrieve_two_fields() {
    let out = retrieve(vec![id("a"), p(','), id("b"), id("from"), id("s")]).unwrap();
    let mut expected = binding("a", "s");
    expected.extend(binding("b", "s"));
    assert_eq!(out, expected);
}

#[test]
fn retrieve_one_field() {
    let out = retrieve(vec![id("x"), id("from"), id("point")]).unwrap();
    assert_eq!(out, binding("x", "point"));
}

#[test]
fn retrieve_parse_keeps_order() {
    let r = Retrieve::parse(&vec![id("c"), p(','), id("a"), p(','), id("b"), id("from"), id("t")]).unwrap();
    assert_eq!(
        r,
        Retrieve { idents: vec!["c".to_string(), "a".to_string(), "b".to_string()], target: "t".to_string() }
    );
}

#[test]
fn retrieve_errors() {
    assert_eq!(retrieve(vec![]), Err(SyntaxError::ExpectedIdent));
    assert_eq!(retrieve(vec![id("a"), p(','), id("b")]), Err(SyntaxError::ExpectedComma));
    assert_eq!(retrieve(vec![id("a"), id("b"), id("s")]), Err(SyntaxError::ExpectedComma));
    assert_eq!(retrieve(vec![id("a"), p(','), p(','), id("from"), id("s")]), Err(SyntaxError::ExpectedIdent));
    assert_eq!(retrieve(vec![id("a"), id("from")]), Err(SyntaxError::ExpectedIdent));
    assert_eq!(retrieve(vec![id("a"), id("from"), id("s"), id("t")]), Err(SyntaxError::UnexpectedToken));
}

#[test]
fn retrieve_refuses_reserved_words() {
    assert_eq!(retrieve(vec![id("fn"), id("from"), id("s")]), Err(SyntaxError::ExpectedIdent));
    assert_eq!(
        retrieve(vec![id("a"), p(','), id("self"), id("from"), id("s")]),
        Err(SyntaxError::ExpectedIdent)
    );
    assert_eq!(retrieve(vec![id("a"), id("from"), id("self")]), Err(SyntaxError::ExpectedIdent));
}
