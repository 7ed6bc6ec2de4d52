use vstd::prelude::*;
use vstd::string::StringExecFns;
use crate::analysis::{dead_code_pass, dead_filter};
use crate::lexer::{Token, TokenModel, token_model};
use crate::parser::{
    BinModel, BinaryStmtBody, CallModel, FuncCallStmt, FuncDeclBody, RetModel, ReturnStmt, Stmt,
    StmtModel, bin_model, call_model, lemma_stmt_models, ret_model, ret_models, stmt_model,
    stmt_models,
};

verus! {

/// A bare operand is a numeric constant exactly when every character is a
/// decimal digit; otherwise it reads a local variable.
pub open spec fn is_digits(s: Seq<char>) -> bool {
    forall|i: int| 0 <= i < s.len() ==> '0' <= #[trigger] s[i] <= '9'
}

pub open spec fn spec_local_or_const(t: Seq<char>) -> Seq<char> {
    if is_digits(t) {
        "i32.const "@ + t + "\n"@
    } else {
        "local.get $"@ + t + "\n"@
    }
}

/// The stack-machine instruction of each operator token. The surface
/// comparisons arrive with swapped token names, so `GreaterThan` (surface
/// `<`) emits the unsigned less-than and `LessThan` (surface `>`) the
/// unsigned greater-than. Unknown operators emit nothing.
pub open spec fn spec_op_text(t: TokenModel) -> Seq<char> {
    match t {
        TokenModel::Add => "i32.add\n"@,
        TokenModel::Mul => "i32.mul\n"@,
        TokenModel::GreaterThan => "i32.lt_u\n"@,
        TokenModel::LessThan => "i32.gt_u\n"@,
        TokenModel::Sub => "i32.sub\n"@,
        TokenModel::DoubleEq => "i32.eq\n"@,
        TokenModel::Percent => "i32.rem_u\n"@,
        TokenModel::NotEq => "i32.ne\n"@,
        _ => Seq::empty(),
    }
}

/// A flat expression: push the left operand, then the right operand and
/// the operator instruction when both are present.
pub open spec fn spec_binary_text(b: BinModel) -> Seq<char> {
    spec_local_or_const(b.lhs) + (match b.rhs {
        Option::Some(r) => spec_local_or_const(r) + (match b.op {
            Option::Some(o) => spec_op_text(o),
            Option::None => Seq::empty(),
        }),
        Option::None => Seq::empty(),
    })
}

/// A call: each argument in order (nested calls recursively), then the
/// call instruction. An argument of any other statement kind stops the
/// argument emission.
pub open spec fn spec_call_text(c: CallModel) -> Seq<char>
    decreases c,
{
    spec_call_args(c.args) + "call $"@ + c.name + "\n"@
}

pub open spec fn spec_call_args(args: Seq<StmtModel>) -> Seq<char>
    decreases args,
{
    if args.len() == 0 {
        Seq::empty()
    } else {
        match args[0] {
            StmtModel::BinaryStmt(b) => spec_binary_text(b) + spec_call_args(args.drop_first()),
            StmtModel::FuncCall(c) => spec_call_text(c) + spec_call_args(args.drop_first()),
            _ => Seq::empty(),
        }
    }
}

pub open spec fn spec_ret_text(r: RetModel) -> Seq<char> {
    match r {
        RetModel::Bin(b) => spec_binary_text(b),
        RetModel::Call(c) => spec_call_text(c),
    }
}

/// The translated body of a block: bindings and reassignments store their
/// expression, loops wrap their body in a region with the re-evaluated
/// condition and a conditional back-branch, conditionals open a structured
/// `if` whose else-arm is deliberately left open, and calls emit in place.
/// Any other statement kind silently stops emission for the block.
pub open spec fn spec_block_text(stmts: Seq<StmtModel>) -> Seq<char>
    decreases stmts,
{
    if stmts.len() == 0 {
        Seq::empty()
    } else {
        match stmts[0] {
            StmtModel::LetStmt { name, value } => spec_binary_text(value) + "local.set $"@ + name
                + "\n"@ + spec_block_text(stmts.drop_first()),
            StmtModel::RassignStmt { name, value } => spec_binary_text(value) + "local.set $"@
                + name + "\n"@ + spec_block_text(stmts.drop_first()),
            StmtModel::WhileStmt { cond, block } => "loop\n"@ + spec_block_text(block) + "\n"@
                + spec_binary_text(cond) + " br_if 0 \n end\n"@ + spec_block_text(
                stmts.drop_first(),
            ),
            StmtModel::IfStmt { cond, block, ret } => spec_binary_text(cond) + "\nif (result i32)\n "@
                + spec_block_text(block) + "\n"@ + (match ret {
                Option::Some(r) => spec_ret_text(r),
                Option::None => Seq::empty(),
            }) + "\n else\n "@ + spec_block_text(stmts.drop_first()),
            StmtModel::FuncCall(c) => spec_call_text(c) + spec_block_text(stmts.drop_first()),
            _ => Seq::empty(),
        }
    }
}

/// The pending close-markers of a block: one `end` for each structured
/// conditional the block opens at this level or inside a loop body. They
/// are appended after the function's return value, closing the open
/// else-arms. Conditionals inside an `if` body keep their own markers and
/// are never closed, mirroring the emission scheme.
pub open spec fn spec_block_ends(stmts: Seq<StmtModel>) -> Seq<char>
    decreases stmts,
{
    if stmts.len() == 0 {
        Seq::empty()
    } else {
        match stmts[0] {
            StmtModel::LetStmt { name, value } => spec_block_ends(stmts.drop_first()),
            StmtModel::RassignStmt { name, value } => spec_block_ends(stmts.drop_first()),
            StmtModel::WhileStmt { cond, block } => spec_block_ends(block) + spec_block_ends(
                stmts.drop_first(),
            ),
            StmtModel::IfStmt { cond, block, ret } => "\nend\n"@ + spec_block_ends(
                stmts.drop_first(),
            ),
            StmtModel::FuncCall(c) => spec_block_ends(stmts.drop_first()),
            _ => Seq::empty(),
        }
    }
}

/// The names bound by `let` anywhere in a body, including inside loop and
/// conditional bodies, in order of appearance: each one gets a local
/// declaration.
pub open spec fn spec_locals(stmts: Seq<StmtModel>) -> Seq<Seq<char>>
    decreases stmts,
{
    if stmts.len() == 0 {
        Seq::empty()
    } else {
        (match stmts[0] {
            StmtModel::LetStmt { name, value } => seq![name],
            StmtModel::WhileStmt { cond, block } => spec_locals(block),
            StmtModel::IfStmt { cond, block, ret } => spec_locals(block),
            _ => Seq::empty(),
        }) + spec_locals(stmts.drop_first())
    }
}

pub open spec fn spec_locals_text(names: Seq<Seq<char>>) -> Seq<char>
    decreases names.len(),
{
    if names.len() == 0 {
        Seq::empty()
    } else {
        "(local $"@ + names[0] + " i32) "@ + spec_locals_text(names.drop_first())
    }
}

/// One parameter declaration per flat-expression argument of the
/// declaration; other argument kinds are skipped.
pub open spec fn spec_params_text(args: Seq<StmtModel>) -> Seq<char>
    decreases args.len(),
{
    if args.len() == 0 {
        Seq::empty()
    } else {
        (match args[0] {
            StmtModel::BinaryStmt(b) => "(param $"@ + b.lhs + " i32) "@,
            _ => Seq::empty(),
        }) + spec_params_text(args.drop_first())
    }
}

/// The full text of one declared function: the dead bindings are removed
/// first, then parameters, a result type when a return value exists, the
/// local declarations, the translated body, the return value, the pending
/// close-markers, and a matching export of the same name.
pub open spec fn spec_func_text(
    name: Seq<char>,
    args: Seq<StmtModel>,
    ret: Option<RetModel>,
    block: Seq<StmtModel>,
) -> Seq<char> {
    let filtered = dead_filter(block, ret);
    let params = spec_params_text(args);
    let locals = spec_locals_text(spec_locals(filtered));
    let body = spec_block_text(filtered);
    let ends = spec_block_ends(filtered);
    let rt_type: Seq<char> = if ret is Some {
        "(result i32)"@
    } else {
        ""@
    };
    let rt_val: Seq<char> = (match ret {
        Option::Some(r) => spec_ret_text(r),
        Option::None => Seq::empty(),
    }) + ends;
    "(func $"@ + name + " "@ + params + " "@ + rt_type + " "@ + locals + "\n "@ + body + "\n"@
        + rt_val + ")\n(export \""@ + name + "\" (func $"@ + name + "))\n"@
}

/// A bare top-level call is wrapped into a synthesized entry function that
/// invokes it and returns its value.
pub open spec fn spec_start_text(c: CallModel) -> Seq<char> {
    "(func $_start (result i32)\n"@ + spec_call_text(c) + ")\n(export \"_start\" (func $_start))"@
}

/// The module items: one function per declaration, the entry wrapper for a
/// bare call; any other top-level statement stops emission.
pub open spec fn spec_items_text(stmts: Seq<StmtModel>) -> Seq<char>
    decreases stmts,
{
    if stmts.len() == 0 {
        Seq::empty()
    } else {
        match stmts[0] {
            StmtModel::FuncDecl { name, args, ret, block } => spec_func_text(name, args, ret, block)
                + spec_items_text(stmts.drop_first()),
            StmtModel::FuncCall(c) => spec_start_text(c) + spec_items_text(stmts.drop_first()),
            _ => Seq::empty(),
        }
    }
}

/// The whole module text.
pub open spec fn spec_wat(stmts: Seq<StmtModel>) -> Seq<char> {
    "(module\n"@ + spec_items_text(stmts) + ")"@
}

fn check_if_literal_i32(text: &str) -> (r: bool)
    ensures
        r == is_digits(text@),
{
    let n = text.unicode_len();
    let mut i: usize = 0;
    while i < n
        invariant
            i <= n,
            n == text@.len(),
            forall|j: int| 0 <= j < i ==> '0' <= #[trigger] text@[j] <= '9',
        decreases n - i,
    {
        let c = text.get_char(i);
        if !('0' <= c && c <= '9') {
            return false;
        }
        i += 1;
    }
    true
}

fn local_or_const_wat(text: &str) -> (r: String)
    ensures
        r@ == spec_local_or_const(text@),
{
    let mut s: String;
    if check_if_literal_i32(text) {
        s = String::from_str("i32.const ");
    } else {
        s = String::from_str("local.get $");
    }
    s.append(text);
    s.append("\n");
    s
}

fn op_wat(token: &Token) -> (r: &'static str)
    ensures
        r@ == spec_op_text(token_model(*token)),
{
    match token {
        Token::Add => "i32.add\n",
        Token::Mul => "i32.mul\n",
        Token::GreaterThan => "i32.lt_u\n",
        Token::LessThan => "i32.gt_u\n",
        Token::Sub => "i32.sub\n",
        Token::DoubleEq => "i32.eq\n",
        Token::Percent => "i32.rem_u\n",
        Token::NotEq => "i32.ne\n",
        _ => {
            proof {
                reveal_strlit("");
                assert(""@ =~= Seq::<char>::empty());
            }
            ""
        },
    }
}

fn binary_stmt_wat(stmt: &BinaryStmtBody) -> (r: String)
    ensures
        r@ == spec_binary_text(bin_model(*stmt)),
{
    let mut temp = local_or_const_wat(stmt.lhs.as_str());
    match &stmt.rhs {
        Option::Some(right_hand) => {
            let rh = local_or_const_wat(right_hand.as_str());
            temp.append(rh.as_str());
            match &stmt.op {
                Option::Some(operation) => {
                    let w = op_wat(operation);
                    temp.append(w);
                },
                Option::None => {
                    proof {
                        assert(temp@ + Seq::<char>::empty() =~= temp@);
                    }
                },
            }
        },
        Option::None => {
            proof {
                assert(temp@ + Seq::<char>::empty() =~= temp@);
            }
        },
    }
    proof {
        assert(temp@ =~= spec_binary_text(bin_model(*stmt)));
    }
    temp
}


fn func_call_wat(stmt: &FuncCallStmt) -> (r: String)
    ensures
        r@ == spec_call_text(call_model(*stmt)),
    decreases *stmt,
{
    let ghost am = stmt_models(stmt.arguments@);
    let n = stmt.arguments.len();
    let mut call = String::new();
    let mut i: usize = 0;
    proof {
        assert(am.skip(0) =~= am);
        assert(Seq::<char>::empty() + spec_call_args(am) =~= spec_call_args(am));
    }
    loop
        invariant
            i <= n,
            n == stmt.arguments@.len(),
            am == stmt_models(stmt.arguments@),
            spec_call_args(am) == call@ + spec_call_args(am.skip(i as int)),
        ensures
            call@ == spec_call_args(am),
        decreases n - i,
    {
        if i >= n {
            proof {
                broadcast use lemma_stmt_models;

                assert(am.skip(i as int) =~= Seq::<StmtModel>::empty());
                assert(call@ + Seq::<char>::empty() =~= call@);
            }
            break ;
        }
        proof {
            broadcast use lemma_stmt_models;

            assert(am.skip(i as int)[0] == am[i as int]);
            assert(am[i as int] == stmt_model(stmt.arguments@[i as int]));
            assert(am.skip(i as int).drop_first() =~= am.skip(i + 1));
        }
        match &stmt.arguments[i] {
            Stmt::BinaryStmt(b) => {
                let t = binary_stmt_wat(b);
                proof {
                    assert(spec_call_args(am.skip(i as int)) == t@ + spec_call_args(am.skip(i + 1)));
                    assert((call@ + t@) + spec_call_args(am.skip(i + 1)) =~= call@ + (t@
                        + spec_call_args(am.skip(i + 1))));
                }
                call.append(t.as_str());
                i += 1;
            },
            Stmt::FuncCall(fc) => {
                proof {
                    assert(decreases_to!(*stmt => stmt.arguments));
                    assert(decreases_to!(stmt.arguments => stmt.arguments@));
                    assert(decreases_to!(stmt.arguments@ => stmt.arguments@[i as int]));
                    assert(decreases_to!(stmt.arguments@[i as int] => *fc));
                    assert(decreases_to!(*stmt => *fc));
                }
                let t = func_call_wat(fc);
                proof {
                    assert(spec_call_args(am.skip(i as int)) == t@ + spec_call_args(am.skip(i + 1)));
                    assert((call@ + t@) + spec_call_args(am.skip(i + 1)) =~= call@ + (t@
                        + spec_call_args(am.skip(i + 1))));
                }
                call.append(t.as_str());
                i += 1;
            },
            _ => {
                proof {
                    assert(spec_call_args(am.skip(i as int)) == Seq::<char>::empty());
                    assert(call@ + Seq::<char>::empty() =~= call@);
                }
                break ;
            },
        }
    }
    call.append("call $");
    call.append(stmt.function_name.as_str());
    call.append("\n");
    proof {
        assert(call@ =~= spec_call_text(call_model(*stmt)));
    }
    call
}

/// The translated return value, followed by the block's pending
/// close-markers, which end the conditionals the body left open.
fn return_val_wat(stmt: &ReturnStmt, ends: &str) -> (r: String)
    ensures
        r@ == spec_ret_text(ret_model(*stmt)) + ends@,
{
    let mut val = match stmt {
        ReturnStmt::BinaryStmtBody(binary_stmt) => binary_stmt_wat(binary_stmt),
        ReturnStmt::FuncCallStmt(func_call) => func_call_wat(func_call),
    };
    val.append(ends);
    val
}

fn argument_var_wat(stmts: &Vec<Stmt>) -> (r: String)
    ensures
        r@ == spec_params_text(stmt_models(stmts@)),
{
    let ghost am = stmt_models(stmts@);
    let n = stmts.len();
    let mut wat = String::new();
    let mut i: usize = 0;
    proof {
        assert(am.skip(0) =~= am);
        assert(Seq::<char>::empty() + spec_params_text(am) =~= spec_params_text(am));
    }
    while i < n
        invariant
            i <= n,
            n == stmts@.len(),
            am == stmt_models(stmts@),
            spec_params_text(am) == wat@ + spec_params_text(am.skip(i as int)),
        decreases n - i,
    {
        proof {
            broadcast use lemma_stmt_models;

            assert(am.skip(i as int)[0] == am[i as int]);
            assert(am[i as int] == stmt_model(stmts@[i as int]));
            assert(am.skip(i as int).drop_first() =~= am.skip(i + 1));
        }
        match &stmts[i] {
            Stmt::BinaryStmt(b) => {
                let ghost before = wat@;
                wat.append("(param $");
                wat.append(b.lhs.as_str());
                wat.append(" i32) ");
                proof {
                    assert(wat@ =~= before + ("(param $"@ + b.lhs@ + " i32) "@));
                    assert(spec_params_text(am.skip(i as int)) == ("(param $"@ + b.lhs@ + " i32) "@)
                        + spec_params_text(am.skip(i + 1)));
                    assert((before + ("(param $"@ + b.lhs@ + " i32) "@)) + spec_params_text(
                        am.skip(i + 1),
                    ) =~= before + (("(param $"@ + b.lhs@ + " i32) "@) + spec_params_text(
                        am.skip(i + 1),
                    )));
                }
            },
            _ => {
                proof {
                    assert(spec_params_text(am.skip(i as int)) == Seq::<char>::empty()
                        + spec_params_text(am.skip(i + 1)));
                    assert(Seq::<char>::empty() + spec_params_text(am.skip(i + 1))
                        =~= spec_params_text(am.skip(i + 1)));
                }
            },
        }
        i += 1;
    }
    proof {
        broadcast use lemma_stmt_models;

        assert(am.skip(n as int) =~= Seq::<StmtModel>::empty());
        assert(wat@ + Seq::<char>::empty() =~= wat@);
    }
    wat
}

pub open spec fn names_models(v: Seq<String>) -> Seq<Seq<char>> {
    v.map_values(|s: String| s@)
}

fn local_var_wat(vars: Vec<String>) -> (r: String)
    ensures
        r@ == spec_locals_text(names_models(vars@)),
{
    let ghost nm = names_models(vars@);
    let n = vars.len();
    let mut wat = String::new();
    let mut i: usize = 0;
    proof {
        assert(nm.skip(0) =~= nm);
        assert(Seq::<char>::empty() + spec_locals_text(nm) =~= spec_locals_text(nm));
    }
    while i < n
        invariant
            i <= n,
            n == vars@.len(),
            nm == names_models(vars@),
            spec_locals_text(nm) == wat@ + spec_locals_text(nm.skip(i as int)),
        decreases n - i,
    {
        proof {
            assert(nm.skip(i as int)[0] == nm[i as int]);
            assert(nm[i as int] == vars@[i as int]@);
            assert(nm.skip(i as int).drop_first() =~= nm.skip(i + 1));
        }
        let ghost before = wat@;
        wat.append("(local $");
        wat.append(vars[i].as_str());
        wat.append(" i32) ");
        proof {
            assert(wat@ =~= before + ("(local $"@ + vars@[i as int]@ + " i32) "@));
            assert(spec_locals_text(nm.skip(i as int)) == ("(local $"@ + nm[i as int] + " i32) "@)
                + spec_locals_text(nm.skip(i + 1)));
            assert((before + ("(local $"@ + nm[i as int] + " i32) "@)) + spec_locals_text(
                nm.skip(i + 1),
            ) =~= before + (("(local $"@ + nm[i as int] + " i32) "@) + spec_locals_text(
                nm.skip(i + 1),
            )));
        }
        i += 1;
    }
    proof {
        assert(nm.skip(n as int) =~= Seq::<Seq<char>>::empty());
        assert(wat@ + Seq::<char>::empty() =~= wat@);
    }
    wat
}


fn extract_local_variables(stmts: &Vec<Stmt>) -> (r: Vec<String>)
    ensures
        names_models(r@) == spec_locals(stmt_models(stmts@)),
    decreases stmts@,
{
    let ghost am = stmt_models(stmts@);
    let n = stmts.len();
    let mut vars: Vec<String> = Vec::new();
    let mut i: usize = 0;
    proof {
        assert(am.skip(0) =~= am);
        assert(Seq::<Seq<char>>::empty() + spec_locals(am) =~= spec_locals(am));
    }
    while i < n
        invariant
            i <= n,
            n == stmts@.len(),
            am == stmt_models(stmts@),
            spec_locals(am) == names_models(vars@) + spec_locals(am.skip(i as int)),
        decreases n - i,
    {
        proof {
            broadcast use lemma_stmt_models;

            assert(am.skip(i as int)[0] == am[i as int]);
            assert(am[i as int] == stmt_model(stmts@[i as int]));
            assert(am.skip(i as int).drop_first() =~= am.skip(i + 1));
        }
        let ghost before = names_models(vars@);
        match &stmts[i] {
            Stmt::LetStmt(l) => {
                vars.push(l.var_name.clone());
                proof {
                    assert(names_models(vars@) =~= before.push(l.var_name@));
                    assert(spec_locals(am.skip(i as int)) == seq![l.var_name@] + spec_locals(
                        am.skip(i + 1),
                    ));
                    assert(names_models(vars@) + spec_locals(am.skip(i + 1)) =~= before
                        + spec_locals(am.skip(i as int)));
                }
            },
            Stmt::WhileStmt(w) => {
                proof {
                    assert(decreases_to!(stmts@ => stmts@[i as int]));
                    assert(decreases_to!(stmts@[i as int] => *w));
                    assert(decreases_to!(*w => w.block));
                    assert(decreases_to!(w.block => w.block@));
                    assert(decreases_to!(stmts@ => w.block@));
                }
                let mut nested = extract_local_variables(&w.block);
                let ghost nested_m = names_models(nested@);
                vars.append(&mut nested);
                proof {
                    assert(names_models(vars@) =~= before + nested_m);
                    assert(spec_locals(am.skip(i as int)) == nested_m + spec_locals(am.skip(i + 1)));
                    assert((before + nested_m) + spec_locals(am.skip(i + 1)) =~= before + (nested_m
                        + spec_locals(am.skip(i + 1))));
                }
            },
            Stmt::IfStmt(f) => {
                proof {
                    assert(decreases_to!(stmts@ => stmts@[i as int]));
                    assert(decreases_to!(stmts@[i as int] => *f));
                    assert(decreases_to!(*f => f.if_block));
                    assert(decreases_to!(f.if_block => f.if_block@));
                    assert(decreases_to!(stmts@ => f.if_block@));
                }
                let mut nested = extract_local_variables(&f.if_block);
                let ghost nested_m = names_models(nested@);
                vars.append(&mut nested);
                proof {
                    assert(names_models(vars@) =~= before + nested_m);
                    assert(spec_locals(am.skip(i as int)) == nested_m + spec_locals(am.skip(i + 1)));
                    assert((before + nested_m) + spec_locals(am.skip(i + 1)) =~= before + (nested_m
                        + spec_locals(am.skip(i + 1))));
                }
            },
            _ => {
                proof {
                    assert(spec_locals(am.skip(i as int)) == Seq::<Seq<char>>::empty()
                        + spec_locals(am.skip(i + 1)));
                    assert(before + (Seq::<Seq<char>>::empty() + spec_locals(am.skip(i + 1)))
                        =~= before + spec_locals(am.skip(i + 1)));
                }
            },
        }
        i += 1;
    }
    proof {
        broadcast use lemma_stmt_models;

        assert(am.skip(n as int) =~= Seq::<StmtModel>::empty());
        assert(names_models(vars@) + Seq::<Seq<char>>::empty() =~= names_models(vars@));
    }
    vars
}

/// The translated body of one block together with its pending
/// close-markers: one `end` per conditional opened at this level or inside
/// a loop body, to be appended after the function's return value.
#[verifier::rlimit(100)]
fn block_wat(stmts: &Vec<Stmt>) -> (r: (String, String))
    ensures
        r.0@ == spec_block_text(stmt_models(stmts@)),
        r.1@ == spec_block_ends(stmt_models(stmts@)),
    decreases stmts@,
{
    let ghost am = stmt_models(stmts@);
    let n = stmts.len();
    let mut wat = String::new();
    let mut ends = String::new();
    let mut i: usize = 0;
    proof {
        assert(am.skip(0) =~= am);
        assert(Seq::<char>::empty() + spec_block_text(am) =~= spec_block_text(am));
        assert(Seq::<char>::empty() + spec_block_ends(am) =~= spec_block_ends(am));
    }
    loop
        invariant
            i <= n,
            n == stmts@.len(),
            am == stmt_models(stmts@),
            spec_block_text(am) == wat@ + spec_block_text(am.skip(i as int)),
            spec_block_ends(am) == ends@ + spec_block_ends(am.skip(i as int)),
        ensures
            wat@ == spec_block_text(am),
            ends@ == spec_block_ends(am),
        decreases n - i,
    {
        if i >= n {
            proof {
                broadcast use lemma_stmt_models;

                assert(am.skip(i as int) =~= Seq::<StmtModel>::empty());
                assert(wat@ + Seq::<char>::empty() =~= wat@);
                assert(ends@ + Seq::<char>::empty() =~= ends@);
            }
            break ;
        }
        proof {
            broadcast use lemma_stmt_models;

            assert(am.skip(i as int)[0] == am[i as int]);
            assert(am[i as int] == stmt_model(stmts@[i as int]));
            assert(am.skip(i as int).drop_first() =~= am.skip(i + 1));
        }
        let ghost before_w = wat@;
        let ghost before_e = ends@;
        match &stmts[i] {
            Stmt::LetStmt(l) => {
                let t = binary_stmt_wat(&l.value);
                wat.append(t.as_str());
                wat.append("local.set $");
                wat.append(l.var_name.as_str());
                wat.append("\n");
                proof {
                    assert(wat@ + spec_block_text(am.skip(i + 1)) =~= before_w + spec_block_text(
                        am.skip(i as int),
                    ));
                }
                i += 1;
            },
            Stmt::RassignStmt(l) => {
                let t = binary_stmt_wat(&l.value);
                wat.append(t.as_str());
                wat.append("local.set $");
                wat.append(l.var_name.as_str());
                wat.append("\n");
                proof {
                    assert(wat@ + spec_block_text(am.skip(i + 1)) =~= before_w + spec_block_text(
                        am.skip(i as int),
                    ));
                }
                i += 1;
            },
            Stmt::WhileStmt(w) => {
                proof {
                    assert(decreases_to!(stmts@ => stmts@[i as int]));
                    assert(decreases_to!(stmts@[i as int] => *w));
                    assert(decreases_to!(*w => w.block));
                    assert(decreases_to!(w.block => w.block@));
                    assert(decreases_to!(stmts@ => w.block@));
                }
                let inner = block_wat(&w.block);
                let cond = binary_stmt_wat(&w.condition);
                wat.append("loop\n");
                wat.append(inner.0.as_str());
                wat.append("\n");
                wat.append(cond.as_str());
                wat.append(" br_if 0 \n end\n");
                ends.append(inner.1.as_str());
                proof {
                    assert(wat@ + spec_block_text(am.skip(i + 1)) =~= before_w + spec_block_text(
                        am.skip(i as int),
                    ));
                    assert(ends@ + spec_block_ends(am.skip(i + 1)) =~= before_e + spec_block_ends(
                        am.skip(i as int),
                    ));
                }
                i += 1;
            },
            Stmt::IfStmt(f) => {
                proof {
                    assert(decreases_to!(stmts@ => stmts@[i as int]));
                    assert(decreases_to!(stmts@[i as int] => *f));
                    assert(decreases_to!(*f => f.if_block));
                    assert(decreases_to!(f.if_block => f.if_block@));
                    assert(decreases_to!(stmts@ => f.if_block@));
                }
                let cond = binary_stmt_wat(&f.condition);
                let inner = block_wat(&f.if_block);
                let rt_text: String = match &f.if_block_rt_val {
                    Option::Some(r) => return_val_wat(r, ""),
                    Option::None => String::new(),
                };
                proof {
                    reveal_strlit("");
                    assert(""@ =~= Seq::<char>::empty());
                }
                wat.append(cond.as_str());
                wat.append("\nif (result i32)\n ");
                wat.append(inner.0.as_str());
                wat.append("\n");
                wat.append(rt_text.as_str());
                wat.append("\n else\n ");
                ends.append("\nend\n");
                proof {
                    assert(wat@ + spec_block_text(am.skip(i + 1)) =~= before_w + spec_block_text(
                        am.skip(i as int),
                    ));
                    assert(ends@ + spec_block_ends(am.skip(i + 1)) =~= before_e + spec_block_ends(
                        am.skip(i as int),
                    ));
                }
                i += 1;
            },
            Stmt::FuncCall(fc) => {
                let t = func_call_wat(fc);
                wat.append(t.as_str());
                proof {
                    assert(wat@ + spec_block_text(am.skip(i + 1)) =~= before_w + spec_block_text(
                        am.skip(i as int),
                    ));
                }
                i += 1;
            },
            _ => {
                proof {
                    assert(spec_block_text(am.skip(i as int)) == Seq::<char>::empty());
                    assert(spec_block_ends(am.skip(i as int)) == Seq::<char>::empty());
                    assert(wat@ + Seq::<char>::empty() =~= wat@);
                    assert(ends@ + Seq::<char>::empty() =~= ends@);
                }
                break ;
            },
        }
    }
    (wat, ends)
}


/// The text of one declared function: dead bindings removed, parameters,
/// result type, locals, body, return value with its close-markers, and the
/// export of the same name.
#[verifier::rlimit(100)]
fn func_decl_wat(f: FuncDeclBody) -> (r: String)
    ensures
        r@ == spec_func_text(
            f.func_name@,
            stmt_models(f.arguments@),
            ret_models(f.return_value),
            stmt_models(f.block@),
        ),
{
    let FuncDeclBody { func_name, arguments, return_value, block } = f;
    let ghost block_m = stmt_models(block@);
    let ghost ret_m = ret_models(return_value);
    let rt_ref = return_value.as_ref();
    proof {
        assert(crate::analysis::ret_ref_models(rt_ref) == ret_m);
    }
    let filtered = dead_code_pass(block, rt_ref);
    proof {
        assert(stmt_models(filtered@) == dead_filter(block_m, ret_m));
    }
    let local_vars = local_var_wat(extract_local_variables(&filtered));
    let args_text = argument_var_wat(&arguments);
    let body_parts = block_wat(&filtered);
    let fn_body = body_parts.0;
    let ends = body_parts.1;
    let (rt_val, rt_type): (String, &str) = match &return_value {
        Option::Some(x) => (return_val_wat(x, ends.as_str()), "(result i32)"),
        Option::None => {
            proof {
                assert(Seq::<char>::empty() + ends@ =~= ends@);
            }
            (ends, "")
        },
    };
    proof {
        reveal_strlit("");
        assert(""@ =~= Seq::<char>::empty());
    }
    let mut out = String::from_str("(func $");
    out.append(func_name.as_str());
    out.append(" ");
    out.append(args_text.as_str());
    out.append(" ");
    out.append(rt_type);
    out.append(" ");
    out.append(local_vars.as_str());
    out.append("\n ");
    out.append(fn_body.as_str());
    out.append("\n");
    out.append(rt_val.as_str());
    out.append(")\n(export \"");
    out.append(func_name.as_str());
    out.append("\" (func $");
    out.append(func_name.as_str());
    out.append("))\n");
    proof {
        assert(out@ =~= spec_func_text(func_name@, stmt_models(arguments@), ret_m, block_m));
    }
    out
}

/// Emits the whole module: one function (and export) per declaration, a
/// synthesized `_start` wrapper for a bare top-level call; any other
/// top-level statement stops emission. Each declared function's body goes
/// through dead-code elimination first.
pub fn wat_gen(parsed: Vec<Stmt>) -> (r: String)
    ensures
        r@ == spec_wat(stmt_models(parsed@)),
{
    let ghost pm = stmt_models(parsed@);
    let mut wat = String::from_str("(module\n");
    let ghost mut emitted: Seq<char> = Seq::empty();
    let mut remaining = parsed;
    proof {
        assert(Seq::<char>::empty() + spec_items_text(pm) =~= spec_items_text(pm));
        assert(wat@ =~= "(module\n"@ + emitted);
    }
    loop
        invariant
            spec_items_text(pm) == emitted + spec_items_text(stmt_models(remaining@)),
            wat@ == "(module\n"@ + emitted,
        ensures
            wat@ == "(module\n"@ + spec_items_text(pm),
        decreases remaining@.len(),
    {
        if remaining.len() == 0 {
            proof {
                assert(spec_items_text(stmt_models(remaining@)) == Seq::<char>::empty());
                assert(emitted + Seq::<char>::empty() =~= emitted);
            }
            break ;
        }
        let ghost rem0 = stmt_models(remaining@);
        let is_item = match &remaining[0] {
            Stmt::FuncDecl(_) => true,
            Stmt::FuncCall(_) => true,
            _ => false,
        };
        proof {
            broadcast use lemma_stmt_models;

            assert(rem0[0] == stmt_model(remaining@[0]));
        }
        if !is_item {
            proof {
                assert(spec_items_text(rem0) == Seq::<char>::empty());
                assert(emitted + Seq::<char>::empty() =~= emitted);
            }
            break ;
        }
        let s = remaining.remove(0);
        proof {
            broadcast use lemma_stmt_models;

            assert(stmt_models(remaining@) =~= rem0.drop_first());
            assert(stmt_model(s) == rem0[0]);
        }
        match s {
            Stmt::FuncDecl(f) => {
                let ghost item_text = spec_func_text(
                    f.func_name@,
                    stmt_models(f.arguments@),
                    ret_models(f.return_value),
                    stmt_models(f.block@),
                );
                proof {
                    assert(spec_items_text(rem0) == item_text + spec_items_text(
                        rem0.drop_first(),
                    ));
                }
                let t = func_decl_wat(f);
                wat.append(t.as_str());
                proof {
                    emitted = emitted + item_text;
                    assert(wat@ =~= "(module\n"@ + emitted);
                    assert((emitted + spec_items_text(stmt_models(remaining@))).len()
                        == spec_items_text(pm).len());
                }
            },
            Stmt::FuncCall(c) => {
                let ghost item_text = spec_start_text(call_model(c));
                proof {
                    assert(spec_items_text(rem0) == item_text + spec_items_text(
                        rem0.drop_first(),
                    ));
                }
                let t = func_call_wat(&c);
                wat.append("(func $_start (result i32)\n");
                wat.append(t.as_str());
                wat.append(")\n(export \"_start\" (func $_start))");
                proof {
                    emitted = emitted + item_text;
                    assert(wat@ =~= "(module\n"@ + emitted);
                }
            },
            _ => {
                proof {
                    assert(false);
                }
                break ;
            },
        }
        proof {
            assert(spec_items_text(pm) =~= emitted + spec_items_text(stmt_models(remaining@)));
        }
    }
    wat.append(")");
    proof {
        assert(wat@ =~= spec_wat(pm));
    }
    wat
}


/// How one flat expression reads back in the generated text: a digit-only
/// operand becomes a constant push and any other operand a local read, for
/// the left and the right operand alike, and each recognized operator emits
/// its instruction (`Add`, `Mul`, `Sub`, `DoubleEq`, `Percent`, `NotEq`,
/// and the two swapped comparisons); an unrecognized operator emits
/// nothing.
pub proof fn lemma_expression_translation(b: BinModel)
    ensures
        spec_binary_text(b) == spec_local_or_const(b.lhs) + (match b.rhs {
            Option::Some(r) => spec_local_or_const(r) + (match b.op {
                Option::Some(o) => spec_op_text(o),
                Option::None => Seq::<char>::empty(),
            }),
            Option::None => Seq::<char>::empty(),
        }),
        is_digits(b.lhs) ==> spec_local_or_const(b.lhs) == "i32.const "@ + b.lhs + "\n"@,
        !is_digits(b.lhs) ==> spec_local_or_const(b.lhs) == "local.get $"@ + b.lhs + "\n"@,
        spec_op_text(TokenModel::Add) == "i32.add\n"@,
        spec_op_text(TokenModel::Mul) == "i32.mul\n"@,
        spec_op_text(TokenModel::GreaterThan) == "i32.lt_u\n"@,
        spec_op_text(TokenModel::LessThan) == "i32.gt_u\n"@,
        spec_op_text(TokenModel::Sub) == "i32.sub\n"@,
        spec_op_text(TokenModel::DoubleEq) == "i32.eq\n"@,
        spec_op_text(TokenModel::Percent) == "i32.rem_u\n"@,
        spec_op_text(TokenModel::NotEq) == "i32.ne\n"@,
{
}

} // verus!
