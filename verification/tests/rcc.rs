use rcc::parser::{parse, Expr, Multiply, ParseError, Program, Statement, Term};
use rcc::tokenizer::{tokenize, Token, TokenizeError};
use rcc::tokenizer::Token::{Asterisk, Int64, Minus, Plus, Slash};

#[test]
fn rcc_test_parse() {
    let input = vec![Int64(221), Plus, Int64(212)];

    let result = parse(&input);
    let expected = Program::Statement(Statement::Expr(Expr::Add(
        Multiply::Term(Term::Int64(221)),
        Box::new(Expr::Multiply(Multiply::Term(Term::Int64(212)))),
    )));

    assert!(result == Ok(expected));

    /*******************************************/

    let input = vec![Int64(221), Plus, Int64(212), Asterisk, Int64(122)];

    let result = parse(&input);
    println!("{:?}", result);
    let expected = Program::Statement(Statement::Expr(Expr::Add(
        Multiply::Term(Term::Int64(221)),
        Box::new(Expr::Multiply(Multiply::Mul(
            Term::Int64(212),
            Box::new(Multiply::Term(Term::Int64(122))),
        ))),
    )));

    assert!(result == Ok(expected));

    /*******************************************/

    let input = vec![Int64(221), Plus];

    let result = parse(&input);
    let expected = ParseError::UnexpectedEOF;

    assert!(result == Err(expected));
}

#[test]
fn rcc_test_tokenize() {
    /*******************************************/

    let result = tokenize("221 + 212");
    let expected = vec![Int64(221), Plus, Int64(212)];
    assert!(result == Ok(expected));

    /*******************************************/

    let result = tokenize("1-2");
    let expected = vec![Int64(1), Minus, Int64(2)];

    assert!(result == Ok(expected));

    /*******************************************/

    let result = tokenize("1+2-3*4/5");
    let expected = vec![
        Int64(1),
        Plus,
        Int64(2),
        Minus,
        Int64(3),
        Asterisk,
        Int64(4),
        Slash,
        Int64(5),
    ];

    assert!(result == Ok(expected));

    /*******************************************/

    let result = tokenize("5 / 2");
    let expected = vec![Int64(5), Slash, Int64(2)];

    assert!(result == Ok(expected));

    /*******************************************/

    let result = tokenize("5 * 2");
    let expected = vec![Int64(5), Asterisk, Int64(2)];

    assert!(result == Ok(expected));

    /*******************************************/

    let result = tokenize("$#!");
    let expected = TokenizeError::IllegalCharacter('$');
    assert!(result == Err(expected));

    /*******************************************/

    let result = tokenize("0 - 12345678901234567890");
    let expected = TokenizeError::ParseIntError;
    assert!(result == Err(expected));
}
