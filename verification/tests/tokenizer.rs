use rcc::tokenizer::{tokenize, Token, TokenizeError};
use rcc::tokenizer::Token::{Asterisk, Int64, Minus, Plus, Slash};

#[test]
fn tokenizer_test_tokenize() {
    /*******************************************/

    let result = tokenize("221 + 212");
    let expected = vec![Int64(221), Plus, Int64(212)];
    assert!(result == Ok(expected));

    /*******************************************/

    let result = tokenize("1-2");
    let expected = vec![Int64(1), Minus, Int64(2)];

    assert!(result == Ok(expected));

    /*******************************************/

    let result = tokenize("1+2-3*4/5");
    let expected = vec![
        Int64(1),
        Plus,
        Int64(2),
        Minus,
        Int64(3),
        Asterisk,
        Int64(4),
        Slash,
        Int64(5),
    ];

    assert!(result == Ok(expected));

    /*******************************************/

    let result = tokenize("5 / 2");
    let expected = vec![Int64(5), Slash, Int64(2)];

    assert!(result == Ok(expected));

    /*******************************************/

    let result = tokenize("5 * 2");
    let expected = vec![Int64(5), Asterisk, Int64(2)];

    assert!(result == Ok(expected));

    /*******************************************/

    let result = tokenize("$#!");
    let expected = TokenizeError::IllegalCharacter('$');
    assert!(result == Err(expected));

    /*******************************************/

    let result = tokenize("0 - 12345678901234567890");
    let expected = TokenizeError::ParseIntError;
    assert!(result == Err(expected));
}

#[test]
fn tokenize_whitespace_insensitive() {
    let spaced = tokenize("1 + 2");
    let dense = tokenize("1+2");
    assert!(spaced == dense);
    assert!(dense == Ok(vec![Token::Int64(1), Token::Plus, Token::Int64(2)]));
}

#[test]
fn tokenize_empty_and_spaces() {
    assert!(tokenize("") == Ok(vec![]));
    assert!(tokenize("   ") == Ok(vec![]));
}

#[test]
fn tokenize_digits_only() {
    assert!(tokenize("221") == Ok(vec![Token::Int64(221)]));
    assert!(tokenize("007") == Ok(vec![Token::Int64(7)]));
    assert!(tokenize("0") == Ok(vec![Token::Int64(0)]));
}

#[test]
fn tokenize_largest_literal() {
    let result = tokenize("9223372036854775807");
    assert!(result == Ok(vec![Token::Int64(i64::MAX)]));

    let result = tokenize("9223372036854775808");
    assert!(result == Err(TokenizeError::ParseIntError));
}

#[test]
fn tokenize_illegal_character_after_tokens() {
    let result = tokenize("1 + a");
    assert!(result == Err(TokenizeError::IllegalCharacter('a')));

    // the first error wins: scanning stops at the offending character
    let result = tokenize("2 ? $");
    assert!(result == Err(TokenizeError::IllegalCharacter('?')));
}
