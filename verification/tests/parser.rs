use rcc::parser::{parse, Expr, Multiply, ParseError, Program, Statement, Term};
use rcc::tokenizer::Token;
use rcc::tokenizer::Token::{Asterisk, Int64, Plus};

#[test]
fn parser_test_parse() {
    let input = vec![Int64(221), Plus, Int64(212)];

    let result = parse(&input);
    let expected = Program::Statement(Statement::Expr(Expr::Add(
        Multiply::Term(Term::Int64(221)),
        Box::new(Expr::Multiply(Multiply::Term(Term::Int64(212)))),
    )));

    assert!(result == Ok(expected));

    /*******************************************/

    let input = vec![Int64(221), Plus, Int64(212), Asterisk, Int64(122)];

    let result = parse(&input);
    println!("{:?}", result);
    let expected = Program::Statement(Statement::Expr(Expr::Add(
        Multiply::Term(Term::Int64(221)),
        Box::new(Expr::Multiply(Multiply::Mul(
            Term::Int64(212),
            Box::new(Multiply::Term(Term::Int64(122))),
        ))),
    )));

    assert!(result == Ok(expected));

    /*******************************************/

    let input = vec![Int64(221), Plus];

    let result = parse(&input);
    let expected = ParseError::UnexpectedEOF;

    assert!(result == Err(expected));
}

#[test]
fn parse_single_literal_passes_through() {
    let input = vec![Token::Int64(42)];
    let result = parse(&input);
    let expected = Program::Statement(Statement::Expr(Expr::Multiply(Multiply::Term(
        Term::Int64(42),
    ))));
    assert!(result == Ok(expected));
}

#[test]
fn parse_precedence_multiplication_binds_tighter() {
    // "2 + 3 * 4": the multiplication nests under the addition's right side
    let input = vec![
        Token::Int64(2),
        Token::Plus,
        Token::Int64(3),
        Token::Asterisk,
        Token::Int64(4),
    ];
    let result = parse(&input);
    let expected = Program::Statement(Statement::Expr(Expr::Add(
        Multiply::Term(Term::Int64(2)),
        Box::new(Expr::Multiply(Multiply::Mul(
            Term::Int64(3),
            Box::new(Multiply::Term(Term::Int64(4))),
        ))),
    )));
    assert!(result == Ok(expected));
}

#[test]
fn parse_empty_stream() {
    let input: Vec<Token> = vec![];
    assert!(parse(&input) == Err(ParseError::UnexpectedEOF));
}

#[test]
fn parse_unexpected_token() {
    let input = vec![Token::Plus];
    assert!(parse(&input) == Err(ParseError::UnexpectedToken(Token::Plus)));

    let input = vec![Token::Int64(1), Token::Slash, Token::Asterisk];
    assert!(parse(&input) == Err(ParseError::UnexpectedToken(Token::Asterisk)));
}

#[test]
fn parse_ignores_trailing_tokens() {
    // a complete expression followed by more input is accepted as a prefix
    let input = vec![Token::Int64(1), Token::Int64(2)];
    let expected = Program::Statement(Statement::Expr(Expr::Multiply(Multiply::Term(
        Term::Int64(1),
    ))));
    assert!(parse(&input) == Ok(expected));
}
