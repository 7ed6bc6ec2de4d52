use js2wat::codegen::wat_gen;
use js2wat::lexer::Token;
use js2wat::parser::{
    BinaryStmtBody, FuncCallStmt, FuncDeclBody, IfStmtBody, LetStmtBody, ReturnStmt, Stmt,
    WhileStmtBody,
};

#[test]
fn gen_simple_return_function() {
    let ast = vec![Stmt::FuncDecl(FuncDeclBody {
        func_name: "main".into(),
        arguments: vec![],
        block: vec![],
        return_value: Some(ReturnStmt::BinaryStmtBody(BinaryStmtBody {
            lhs: "1".into(),
            rhs: None,
            op: None,
        })),
    })];

    let wat = wat_gen(ast);

    assert!(wat.contains("(func $main"));
    assert!(wat.contains("i32.const 1"));
    assert!(wat.contains("(export \"main\""));
}

#[test]
fn gen_binary_addition() {
    let ast = vec![Stmt::FuncDecl(FuncDeclBody {
        func_name: "add".into(),
        arguments: vec![],
        block: vec![],
        return_value: Some(ReturnStmt::BinaryStmtBody(BinaryStmtBody {
            lhs: "1".into(),
            rhs: Some("2".into()),
            op: Some(Token::Add),
        })),
    })];

    let wat = wat_gen(ast);

    assert!(wat.contains("i32.const 1"));
    assert!(wat.contains("i32.const 2"));
    assert!(wat.contains("i32.add"));
}

#[test]
fn gen_local_variable_assignment() {
    // the binding is never read and the function has no return value, so
    // the dead-store pass removes it: no local declaration, no constant
    // push, no store may survive into the output
    let ast = vec![Stmt::FuncDecl(FuncDeclBody {
        func_name: "main".into(),
        arguments: vec![],
        block: vec![Stmt::LetStmt(LetStmtBody {
            var_name: "x".into(),
            value: BinaryStmtBody {
                lhs: "10".into(),
                rhs: None,
                op: None,
            },
        })],
        return_value: None,
    })];

    let wat = wat_gen(ast);

    assert!(wat.contains("(func $main"));
    assert!(!wat.contains("(local $x i32)"));
    assert!(!wat.contains("i32.const 10"));
    assert!(!wat.contains("local.set $x"));
}

#[test]
fn gen_function_call() {
    let ast = vec![Stmt::FuncDecl(FuncDeclBody {
        func_name: "main".into(),
        arguments: vec![],
        block: vec![Stmt::FuncCall(FuncCallStmt {
            function_name: "foo".into(),
            arguments: Vec::new(),
        })],
        return_value: Some(ReturnStmt::BinaryStmtBody(BinaryStmtBody {
            lhs: "5".into(),
            rhs: None,
            op: None,
        })),
    })];

    let wat = wat_gen(ast);

    assert!(wat.contains("i32.const 5"));
    assert!(wat.contains("call $foo"));
}

#[test]
fn gen_while_loop() {
    let ast = vec![Stmt::FuncDecl(FuncDeclBody {
        func_name: "loop_fn".into(),
        arguments: vec![],
        block: vec![Stmt::WhileStmt(WhileStmtBody {
            condition: BinaryStmtBody {
                lhs: "x".into(),
                rhs: Some("10".into()),
                op: Some(Token::LessThan),
            },
            block: vec![],
        })],
        return_value: None,
    })];

    let wat = wat_gen(ast);

    assert!(wat.contains("loop"));
    assert!(wat.contains("i32.gt_u"));
    assert!(wat.contains("br_if 0"));
}

#[test]
fn gen_if_statement_with_return() {
    let ast = vec![Stmt::FuncDecl(FuncDeclBody {
        func_name: "cond".into(),
        arguments: vec![],
        block: vec![Stmt::IfStmt(IfStmtBody {
            condition: BinaryStmtBody {
                lhs: "1".into(),
                rhs: Some("1".into()),
                op: Some(Token::DoubleEq),
            },
            if_block: vec![],
            if_block_rt_val: Some(ReturnStmt::BinaryStmtBody(BinaryStmtBody {
                lhs: "42".into(),
                rhs: None,
                op: None,
            })),
        })],
        return_value: None,
    })];

    let wat = wat_gen(ast);

    assert!(wat.contains("if (result i32)"));
    assert!(wat.contains("i32.eq"));
    assert!(wat.contains("i32.const 42"));
    assert!(wat.contains("end"));
}

#[test]
fn gen_module_wrapper_and_export() {
    let ast = vec![Stmt::FuncDecl(FuncDeclBody {
        func_name: "f".into(),
        arguments: vec![Stmt::BinaryStmt(BinaryStmtBody {
            lhs: "a".into(),
            rhs: None,
            op: None,
        })],
        block: vec![],
        return_value: None,
    })];
    let wat = wat_gen(ast);
    assert!(wat.starts_with("(module\n"));
    assert!(wat.ends_with(")"));
    assert!(wat.contains("(param $a i32)"));
    assert!(wat.contains("(export \"f\" (func $f))"));
}

#[test]
fn gen_bare_call_synthesizes_entry_function() {
    let ast = vec![Stmt::FuncCall(FuncCallStmt {
        function_name: "main".into(),
        arguments: vec![Stmt::BinaryStmt(BinaryStmtBody {
            lhs: "3".into(),
            rhs: None,
            op: None,
        })],
    })];
    let wat = wat_gen(ast);
    assert!(wat.contains("(func $_start (result i32)"));
    assert!(wat.contains("i32.const 3"));
    assert!(wat.contains("call $main"));
    assert!(wat.contains("(export \"_start\" (func $_start))"));
}

#[test]
fn gen_nested_call_arguments_emit_inner_first() {
    let ast = vec![Stmt::FuncDecl(FuncDeclBody {
        func_name: "f".into(),
        arguments: vec![],
        block: vec![],
        return_value: Some(ReturnStmt::FuncCallStmt(FuncCallStmt {
            function_name: "g".into(),
            arguments: vec![
                Stmt::FuncCall(FuncCallStmt {
                    function_name: "h".into(),
                    arguments: vec![Stmt::BinaryStmt(BinaryStmtBody {
                        lhs: "1".into(),
                        rhs: None,
                        op: None,
                    })],
                }),
                Stmt::BinaryStmt(BinaryStmtBody {
                    lhs: "2".into(),
                    rhs: None,
                    op: None,
                }),
            ],
        })),
    })];
    let wat = wat_gen(ast);
    let h = wat.find("call $h").unwrap();
    let g = wat.find("call $g").unwrap();
    assert!(h < g);
    assert!(wat.contains("i32.const 1"));
    assert!(wat.contains("i32.const 2"));
}

#[test]
fn gen_locals_are_declared_for_loop_bodies() {
    // a let inside a while body gets a local declaration; the loop itself
    // protects it from the dead-store pass, which does not look inside
    // control-flow bodies
    let ast = vec![Stmt::FuncDecl(FuncDeclBody {
        func_name: "f".into(),
        arguments: vec![],
        block: vec![Stmt::WhileStmt(WhileStmtBody {
            condition: BinaryStmtBody {
                lhs: "1".into(),
                rhs: None,
                op: None,
            },
            block: vec![Stmt::LetStmt(LetStmtBody {
                var_name: "inner".into(),
                value: BinaryStmtBody {
                    lhs: "7".into(),
                    rhs: None,
                    op: None,
                },
            })],
        })],
        return_value: None,
    })];
    let wat = wat_gen(ast);
    assert!(wat.contains("(local $inner i32)"));
    assert!(wat.contains("local.set $inner"));
}
