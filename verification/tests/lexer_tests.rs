use js2wat::lexer::{lex, Token};

#[test]
fn test_single_char_tokens() {
    let input = String::from("(){};=+-*%!,<> \n\t");
    let tokens = lex(input);

    let expected = vec![
        Token::ParenOpen,
        Token::ParenClose,
        Token::CurlyOpen,
        Token::CurlyClose,
        Token::SemiColon,
        Token::Eq,
        Token::Add,
        Token::Sub,
        Token::Mul,
        Token::Percent,
        Token::Exclaim,
        Token::Comma,
        Token::GreaterThan,
        Token::LessThan,
        Token::WhiteSpace,
        Token::NewLine,
        Token::Tab,
    ];

    assert_eq!(tokens, expected);
}

#[test]
fn test_keywords() {
    let input = String::from("function let return const if else while");
    let tokens = lex(input);

    let expected = vec![
        Token::Function,
        Token::WhiteSpace,
        Token::Let,
        Token::WhiteSpace,
        Token::Return,
        Token::WhiteSpace,
        Token::Const,
        Token::WhiteSpace,
        Token::If,
        Token::WhiteSpace,
        Token::Else,
        Token::WhiteSpace,
        Token::While,
    ];

    assert_eq!(tokens, expected);
}

#[test]
fn test_literal_identifiers() {
    let input = String::from("foo bar baz");
    let tokens = lex(input);

    let expected = vec![
        Token::Literal("foo".into()),
        Token::WhiteSpace,
        Token::Literal("bar".into()),
        Token::WhiteSpace,
        Token::Literal("baz".into()),
    ];

    assert_eq!(tokens, expected);
}

#[test]
fn test_mixed_expression() {
    let input = String::from("let x = a + b;");
    let tokens = lex(input);

    let expected = vec![
        Token::Let,
        Token::WhiteSpace,
        Token::Literal("x".into()),
        Token::WhiteSpace,
        Token::Eq,
        Token::WhiteSpace,
        Token::Literal("a".into()),
        Token::WhiteSpace,
        Token::Add,
        Token::WhiteSpace,
        Token::Literal("b".into()),
        Token::SemiColon,
    ];

    assert_eq!(tokens, expected);
}

#[test]
fn test_comment_literal() {
    let input = String::from("// comment");
    let tokens = lex(input);

    let expected = vec![
        Token::Comment,
        Token::WhiteSpace,
        Token::Literal("comment".into()),
    ];

    assert_eq!(tokens, expected);
}

#[test]
fn test_empty_input_lexes_to_nothing() {
    assert!(lex(String::new()).is_empty());
}

#[test]
fn test_numeric_run_is_one_literal() {
    let tokens = lex(String::from("123+4"));
    let expected = vec![
        Token::Literal("123".into()),
        Token::Add,
        Token::Literal("4".into()),
    ];
    assert_eq!(tokens, expected);
}
