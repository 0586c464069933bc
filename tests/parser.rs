use forth_rs::errors::Error;
use forth_rs::expressions::{Begin, Expr, IfElseThen, Loop};
use forth_rs::parser::Parser;
use forth_rs::reader::Reader;

fn parse(input: &str) -> Result<Vec<Expr>, Error> {
    let mut parser = Parser::from(input);
    let mut items = Vec::new();
    while let Some(item) = parser.next() {
        items.push(item?);
    }
    Ok(items)
}

fn word(w: &str) -> Expr {
    Expr::Word(w.into())
}

#[test]
fn parses_words_and_comments() {
    assert_eq!(parse("").unwrap(), vec![]);
    assert_eq!(parse("hello").unwrap(), vec![word("hello")]);
    assert_eq!(parse("HELLO").unwrap(), vec![word("hello")]);
    assert_eq!(parse(" \t\t hello").unwrap(), vec![word("hello")]);
    assert_eq!(parse("hello \t\t  ").unwrap(), vec![word("hello")]);
    assert_eq!(
        parse("hello ( this is a comment ) world").unwrap(),
        vec![word("hello"), word("world")]
    );
    assert_eq!(parse("a \\ rest of line\nb").unwrap(), vec![word("a"), word("b")]);
}

#[test]
fn parses_characters() {
    assert_eq!(parse("char x").unwrap(), vec![Expr::Char('x' as i32)]);
    assert_eq!(parse("char 5").unwrap(), vec![Expr::Char('5' as i32)]);
    assert_eq!(parse("char hello").unwrap(), vec![Expr::Char('h' as i32)]);
}

#[test]
fn parses_functions() {
    assert_eq!(parse(" : foo ; ").unwrap(), vec![Expr::NewFunction("foo".into(), vec![])]);
    let body = vec![word("bar"), word("2"), word("+")];
    assert_eq!(parse(" : foo bar 2 + ; ").unwrap(), vec![Expr::NewFunction("foo".into(), body)]);
    let body = vec![word("bar"), word("2"), word("+")];
    assert_eq!(
        parse(" : foo ( n1 n2 -- n3 ) bar 2 + ; ").unwrap(),
        vec![Expr::NewFunction("foo".into(), body)]
    );
    let body = vec![word("bar"), word("2"), word("+")];
    assert_eq!(parse(" : FOO BAR 2 + ; ").unwrap(), vec![Expr::NewFunction("foo".into(), body)]);
}

#[test]
fn parses_blocks() {
    assert_eq!(
        parse(" if then ").unwrap(),
        vec![Expr::IfElseThen(IfElseThen { then_body: vec![], else_body: vec![] })]
    );
    assert_eq!(
        parse(" IF YES + ELSE NO - . THEN ").unwrap(),
        vec![Expr::IfElseThen(IfElseThen {
            then_body: vec![word("yes"), word("+")],
            else_body: vec![word("no"), word("-"), word(".")],
        })]
    );
    assert_eq!(parse(" do loop ").unwrap(), vec![Expr::Loop(Loop { body: vec![] })]);
    assert_eq!(
        parse(" 5 0 DO I . LOOP ").unwrap(),
        vec![word("5"), word("0"), Expr::Loop(Loop { body: vec![word("i"), word(".")] })]
    );
    assert_eq!(parse(" begin again ").unwrap(), vec![Expr::Begin(Begin { body: vec![] })]);
    assert_eq!(parse(" begin until ").unwrap(), vec![Expr::Begin(Begin { body: vec![word("until")] })]);
    assert_eq!(
        parse(" begin while repeat ").unwrap(),
        vec![Expr::Begin(Begin { body: vec![word("while")] })]
    );
}

#[test]
fn parsing_errors() {
    for input in [
        ": foo bar",
        "if 2 +",
        "if 2 + else 3 -",
        "begin foo bar",
        "begin foo while bar",
        "do i . 2 +",
        "include",
        "variable",
        "constant",
        ".\" hello, world!",
        ".( hello, world!",
        "( foo bar baz",
    ] {
        assert!(parse(input).is_err(), "parsing {:?}", input);
    }
    assert_eq!(parse(":").unwrap_err(), Error::ParsingError("function needs to be named".into()));
    assert_eq!(parse(".( oops").unwrap_err(), Error::ParsingError("missing ')'".into()));
    assert_eq!(parse(".\" oops").unwrap_err(), Error::ParsingError("missing '\"'".into()));
}

#[test]
fn read_until_and_printed_text() {
    let mut parser = Parser::from("abc) rest");
    assert_eq!(parser.read_until(')'), Ok("abc".to_string()));
    assert_eq!(parser.read_word(), "");
    assert_eq!(parser.read_word(), "rest");

    let mut parser = Parser::from(".( hi) x");
    assert_eq!(parser.next(), Some(Ok(word("x"))));
    assert_eq!(parser.take_printed(), vec!['h', 'i']);
}

#[test]
fn reader_peeks_and_reads() {
    let mut reader = Reader::from("ab");
    assert_eq!(reader.peek(), Some('a'));
    assert_eq!(reader.next(), Some('a'));
    assert_eq!(reader.peek(), Some('b'));
    assert_eq!(reader.next(), Some('b'));
    assert_eq!(reader.next(), None);
    assert_eq!(reader.peek(), None);
}
