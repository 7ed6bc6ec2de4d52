use js2wat::analysis::dead_code_pass;
use js2wat::js2wat;
use js2wat::parser::{BinaryStmtBody, LetStmtBody, ParseError, ReturnStmt, Stmt};

#[test]
fn exact_output_for_simple_return() {
    let wat = js2wat("function main() { return 1; }".to_string()).unwrap();
    assert_eq!(
        wat,
        "(module\n(func $main  (result i32) \n \ni32.const 1\n)\n(export \"main\" (func $main))\n)"
    );
}

#[test]
fn dead_binding_is_absent_from_output() {
    // a binding with read-count zero and no return referencing it leaves no
    // local declaration and no store in the output
    let wat = js2wat("function main() { let x = 10; }".to_string()).unwrap();
    assert!(wat.contains("(func $main"));
    assert!(!wat.contains("(local $x i32)"));
    assert!(!wat.contains("local.set $x"));
    assert!(!wat.contains("i32.const 10"));
}

#[test]
fn returned_binding_is_present_in_output() {
    // the tail return reads the binding, so its count becomes one: the
    // local declaration, the constant push, the store, and the final read
    // must all be present
    let wat = js2wat("function main() { let x = 10; return x; }".to_string()).unwrap();
    assert!(wat.contains("(local $x i32)"));
    assert!(wat.contains("i32.const 10"));
    assert!(wat.contains("local.set $x"));
    assert!(wat.contains("local.get $x"));
    assert!(wat.contains("(result i32)"));
}

#[test]
fn binding_read_by_later_binding_is_present() {
    let wat = js2wat("function f() { let a = 5; let b = a; }".to_string()).unwrap();
    assert!(wat.contains("(local $a i32)"));
    assert!(wat.contains("local.set $a"));
    assert!(!wat.contains("(local $b i32)"));
    assert!(!wat.contains("local.set $b"));
}

#[test]
fn while_loop_region_with_store_condition_and_back_branch() {
    let wat = js2wat("function f() { while (x < 10) { x = x - 1; } }".to_string()).unwrap();
    let loop_at = wat.find("loop").unwrap();
    let store_at = wat.find("local.set $x").unwrap();
    let cond_at = wat.find("i32.lt_u").unwrap();
    let branch_at = wat.find("br_if 0").unwrap();
    assert!(wat.contains("i32.sub"));
    assert!(loop_at < store_at);
    assert!(store_at < cond_at);
    assert!(cond_at < branch_at);
}

#[test]
fn if_statement_closes_exactly_the_opened_conditional() {
    let wat = js2wat("function f() { if (1 == 1) { return 42; } }".to_string()).unwrap();
    assert!(wat.contains("if (result i32)"));
    assert!(wat.contains("i32.eq"));
    assert!(wat.contains("i32.const 42"));
    assert_eq!(wat.matches("end").count(), 1);
    let then_at = wat.find("if (result i32)").unwrap();
    let val_at = wat.find("i32.const 42").unwrap();
    let end_at = wat.find("end").unwrap();
    assert!(then_at < val_at);
    assert!(val_at < end_at);
}

#[test]
fn operators_map_to_their_instructions() {
    let cases = [
        ("+", "i32.add"),
        ("*", "i32.mul"),
        ("<", "i32.lt_u"),
        (">", "i32.gt_u"),
        ("-", "i32.sub"),
        ("==", "i32.eq"),
        ("%", "i32.rem_u"),
        ("!=", "i32.ne"),
    ];
    for (op, instr) in cases {
        let src = format!("function f() {{ return ax {} 10; }}", op);
        let wat = js2wat(src).unwrap();
        assert!(wat.contains("local.get $ax"), "missing operand read for {}", op);
        assert!(wat.contains("i32.const 10"), "missing constant push for {}", op);
        assert!(wat.contains(instr), "missing {} for {}", instr, op);
    }
}

#[test]
fn elimination_of_already_filtered_input_changes_nothing() {
    // the pass keeps this binding (the return reads it); running the pass
    // again on its own output, with the same return, yields the same
    // sequence
    let ret = ReturnStmt::BinaryStmtBody(BinaryStmtBody {
        lhs: "x".into(),
        rhs: None,
        op: None,
    });
    let block = vec![Stmt::LetStmt(LetStmtBody {
        var_name: "x".into(),
        value: BinaryStmtBody {
            lhs: "10".into(),
            rhs: None,
            op: None,
        },
    })];
    let once = dead_code_pass(block, Some(&ret));
    assert_eq!(once.len(), 1);
    match &once[0] {
        Stmt::LetStmt(l) => {
            assert_eq!(l.var_name, "x");
            assert_eq!(l.value.lhs, "10");
        }
        _ => panic!("Expected LetStmt"),
    }
    let twice = dead_code_pass(once, Some(&ret));
    assert_eq!(twice.len(), 1);
    match &twice[0] {
        Stmt::LetStmt(l) => {
            assert_eq!(l.var_name, "x");
            assert_eq!(l.value.lhs, "10");
        }
        _ => panic!("Expected LetStmt"),
    }
}

#[test]
fn non_binding_statements_always_survive_elimination() {
    let block = vec![
        Stmt::LetStmt(LetStmtBody {
            var_name: "dead".into(),
            value: BinaryStmtBody {
                lhs: "1".into(),
                rhs: None,
                op: None,
            },
        }),
        Stmt::RassignStmt(LetStmtBody {
            var_name: "y".into(),
            value: BinaryStmtBody {
                lhs: "2".into(),
                rhs: None,
                op: None,
            },
        }),
    ];
    let filtered = dead_code_pass(block, None);
    assert_eq!(filtered.len(), 1);
    match &filtered[0] {
        Stmt::RassignStmt(l) => assert_eq!(l.var_name, "y"),
        _ => panic!("Expected RassignStmt"),
    }
}

#[test]
fn bare_top_level_call_gets_entry_wrapper() {
    let wat = js2wat("main(7);".to_string()).unwrap();
    assert!(wat.contains("(func $_start (result i32)"));
    assert!(wat.contains("i32.const 7"));
    assert!(wat.contains("call $main"));
    assert!(wat.contains("(export \"_start\" (func $_start))"));
}

#[test]
fn comments_are_skipped() {
    let wat = js2wat("// all of this is noise\nfunction f() { return 2; }".to_string()).unwrap();
    assert!(wat.contains("(func $f"));
    assert!(wat.contains("i32.const 2"));
    assert!(!wat.contains("noise"));
}

#[test]
fn structural_failure_aborts_the_compilation() {
    assert_eq!(
        js2wat("function (x) { }".to_string()),
        Err(ParseError::ExpectedFunctionName)
    );
    assert_eq!(
        js2wat("function f() { let = 3; }".to_string()),
        Err(ParseError::ExpectedVariableName)
    );
    assert_eq!(
        js2wat("function f() { let x = ; }".to_string()),
        Err(ParseError::InvalidBinaryStatement)
    );
}

#[test]
fn parameters_become_param_declarations() {
    let wat = js2wat("function f(a, b) { return a + b; }".to_string()).unwrap();
    assert!(wat.contains("(param $a i32)"));
    assert!(wat.contains("(param $b i32)"));
    assert!(wat.contains("i32.add"));
    assert!(wat.contains("local.get $a"));
    assert!(wat.contains("local.get $b"));
}
