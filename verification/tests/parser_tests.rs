use js2wat::lexer::Token;
use js2wat::parser::{parse, parse_binary_stmt, parse_block, ParseError, ReturnStmt, Stmt};

fn t(s: &str) -> Token {
    Token::Literal(s.to_string())
}

#[test]
fn parses_empty_input() {
    let ast = parse(vec![]).unwrap();
    assert!(ast.is_empty());
}

#[test]
fn parses_function_declaration_no_body() {
    let tokens = vec![
        Token::Function,
        Token::WhiteSpace,
        t("foo"),
        Token::ParenOpen,
        Token::ParenClose,
        Token::CurlyOpen,
        Token::CurlyClose,
    ];

    let ast = parse(tokens).unwrap();

    assert_eq!(ast.len(), 1);

    match &ast[0] {
        Stmt::FuncDecl(body) => {
            assert_eq!(body.func_name, "foo");
            assert!(body.arguments.is_empty());
            assert!(body.block.is_empty());
            assert!(body.return_value.is_none());
        }
        _ => panic!("Expected FuncDecl"),
    }
}

#[test]
fn parses_function_with_let_and_return() {
    let tokens = vec![
        Token::Function,
        Token::WhiteSpace,
        t("f"),
        Token::ParenOpen,
        Token::ParenClose,
        Token::CurlyOpen,
        Token::Let,
        Token::WhiteSpace,
        t("x"),
        Token::WhiteSpace,
        Token::Eq,
        Token::WhiteSpace,
        t("1"),
        Token::SemiColon,
        Token::Return,
        Token::WhiteSpace,
        t("x"),
        Token::SemiColon,
        Token::CurlyClose,
    ];

    let ast = parse(tokens).unwrap();

    match &ast[0] {
        Stmt::FuncDecl(body) => {
            assert_eq!(body.block.len(), 1);

            match &body.block[0] {
                Stmt::LetStmt(let_stmt) => {
                    assert_eq!(let_stmt.var_name, "x");
                    assert_eq!(let_stmt.value.lhs, "1");
                }
                _ => panic!("Expected LetStmt"),
            }

            match &body.return_value {
                Some(ReturnStmt::BinaryStmtBody(bin)) => {
                    assert_eq!(bin.lhs, "x");
                    assert!(bin.op.is_none());
                }
                _ => panic!("Expected return binary stmt"),
            }
        }
        _ => panic!("Expected FuncDecl"),
    }
}

#[test]
fn parses_function_call_statement() {
    let tokens = vec![
        t("foo"),
        Token::ParenOpen,
        t("x"),
        Token::Comma,
        t("y"),
        Token::ParenClose,
        Token::SemiColon,
    ];

    let ast = parse(tokens).unwrap();

    assert_eq!(ast.len(), 1);

    match &ast[0] {
        Stmt::FuncCall(call) => {
            assert_eq!(call.function_name, "foo");
            assert_eq!(call.arguments.len(), 2);
        }
        _ => panic!("Expected FuncCall"),
    }
}

#[test]
fn parses_while_loop_with_assignment() {
    let tokens = vec![
        Token::While,
        Token::WhiteSpace,
        Token::ParenOpen,
        t("x"),
        Token::LessThan,
        t("10"),
        Token::ParenClose,
        Token::CurlyOpen,
        t("x"),
        Token::WhiteSpace,
        Token::Eq,
        Token::WhiteSpace,
        t("x"),
        Token::Sub,
        t("1"),
        Token::SemiColon,
        Token::CurlyClose,
    ];

    let (block, _, _) = parse_block(&tokens, 0).unwrap();

    assert_eq!(block.len(), 1);

    match &block[0] {
        Stmt::WhileStmt(while_stmt) => {
            assert_eq!(while_stmt.condition.lhs, "x");
            assert_eq!(while_stmt.condition.rhs.as_deref(), Some("10"));
            assert_eq!(while_stmt.block.len(), 1);
        }
        _ => panic!("Expected WhileStmt"),
    }
}

#[test]
fn parses_if_statement() {
    let tokens = vec![
        Token::If,
        Token::WhiteSpace,
        Token::ParenOpen,
        t("x"),
        Token::DoubleEq,
        t("0"),
        Token::ParenClose,
        Token::CurlyOpen,
        Token::Return,
        Token::WhiteSpace,
        t("x"),
        Token::SemiColon,
        Token::CurlyClose,
    ];

    let (block, _, _) = parse_block(&tokens, 0).unwrap();

    assert_eq!(block.len(), 1);

    match &block[0] {
        Stmt::IfStmt(if_stmt) => {
            assert_eq!(if_stmt.condition.lhs, "x");
            assert_eq!(if_stmt.condition.rhs.as_deref(), Some("0"));
            assert!(if_stmt.if_block.is_empty());
            assert!(if_stmt.if_block_rt_val.is_some());
        }
        _ => panic!("Expected IfStmt"),
    }
}

#[test]
fn parses_binary_expression() {
    let tokens = vec![t("a"), Token::Add, t("b")];

    let (expr, _) = parse_binary_stmt(&tokens, 0, None).unwrap();

    assert_eq!(expr.lhs, "a");
    assert_eq!(expr.rhs.as_deref(), Some("b"));
    assert_eq!(expr.op, Some(Token::Add));
}

#[test]
fn missing_function_name_is_a_structural_failure() {
    let tokens = vec![
        Token::Function,
        Token::WhiteSpace,
        Token::ParenOpen,
        Token::ParenClose,
        Token::CurlyOpen,
        Token::CurlyClose,
    ];
    assert!(matches!(parse(tokens), Err(ParseError::ExpectedFunctionName)));
}

#[test]
fn missing_let_name_is_a_structural_failure() {
    let tokens = vec![
        Token::Function,
        Token::WhiteSpace,
        t("f"),
        Token::ParenOpen,
        Token::ParenClose,
        Token::CurlyOpen,
        Token::Let,
        Token::WhiteSpace,
        Token::Eq,
        Token::CurlyClose,
    ];
    assert!(matches!(parse(tokens), Err(ParseError::ExpectedVariableName)));
}

#[test]
fn mismatched_required_token_is_a_structural_failure() {
    let tokens = vec![
        Token::Function,
        Token::WhiteSpace,
        t("f"),
        Token::CurlyOpen,
        Token::CurlyClose,
    ];
    assert!(matches!(parse(tokens), Err(ParseError::ExpectedToken)));
}

#[test]
fn bad_argument_token_is_a_structural_failure() {
    let tokens = vec![
        t("foo"),
        Token::ParenOpen,
        Token::Eq,
        Token::ParenClose,
        Token::SemiColon,
    ];
    assert!(matches!(parse(tokens), Err(ParseError::UnexpectedArgumentToken)));
}

#[test]
fn missing_operand_is_a_structural_failure() {
    let tokens = vec![
        Token::Function,
        Token::WhiteSpace,
        t("f"),
        Token::ParenOpen,
        Token::ParenClose,
        Token::CurlyOpen,
        Token::Let,
        Token::WhiteSpace,
        t("x"),
        Token::WhiteSpace,
        Token::Eq,
        Token::WhiteSpace,
        Token::SemiColon,
        Token::CurlyClose,
    ];
    assert!(matches!(parse(tokens), Err(ParseError::InvalidBinaryStatement)));
}

#[test]
fn skips_line_comments_at_top_level() {
    let tokens = vec![
        Token::Comment,
        Token::WhiteSpace,
        t("noise"),
        Token::NewLine,
        t("foo"),
        Token::ParenOpen,
        Token::ParenClose,
        Token::SemiColon,
    ];
    let ast = parse(tokens).unwrap();
    assert_eq!(ast.len(), 1);
    match &ast[0] {
        Stmt::FuncCall(call) => assert_eq!(call.function_name, "foo"),
        _ => panic!("Expected FuncCall"),
    }
}

#[test]
fn unhandled_continuation_drops_the_statement() {
    // an identifier followed by neither `=` nor `(` is dropped, and
    // parsing continues with the rest of the block
    let tokens = vec![
        Token::Function,
        Token::WhiteSpace,
        t("f"),
        Token::ParenOpen,
        Token::ParenClose,
        Token::CurlyOpen,
        t("x"),
        Token::WhiteSpace,
        Token::SemiColon,
        Token::Return,
        Token::WhiteSpace,
        t("1"),
        Token::SemiColon,
        Token::CurlyClose,
    ];
    let ast = parse(tokens).unwrap();
    match &ast[0] {
        Stmt::FuncDecl(body) => {
            assert!(body.block.is_empty());
            assert!(body.return_value.is_some());
        }
        _ => panic!("Expected FuncDecl"),
    }
}

#[test]
fn return_of_call_becomes_call_return_value() {
    let tokens = vec![
        Token::Function,
        Token::WhiteSpace,
        t("f"),
        Token::ParenOpen,
        Token::ParenClose,
        Token::CurlyOpen,
        Token::Return,
        Token::WhiteSpace,
        t("g"),
        Token::ParenOpen,
        t("1"),
        Token::ParenClose,
        Token::SemiColon,
        Token::CurlyClose,
    ];
    let ast = parse(tokens).unwrap();
    match &ast[0] {
        Stmt::FuncDecl(body) => match &body.return_value {
            Some(ReturnStmt::FuncCallStmt(call)) => {
                assert_eq!(call.function_name, "g");
                assert_eq!(call.arguments.len(), 1);
            }
            _ => panic!("Expected call return value"),
        },
        _ => panic!("Expected FuncDecl"),
    }
}
