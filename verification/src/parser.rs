use vstd::prelude::*;
use crate::lexer::{Token, TokenModel, token_model, token_models};

verus! {

/// One statement of the source language's syntax tree.
#[derive(Debug)]
pub enum Stmt {
    FuncDecl(FuncDeclBody),
    WhileStmt(WhileStmtBody),
    IfStmt(IfStmtBody),
    LetStmt(LetStmtBody),
    RassignStmt(LetStmtBody),
    BinaryStmt(BinaryStmtBody),
    FuncCall(FuncCallStmt),
}

/// The value a block hands back: a flat expression or a function call.
#[derive(Debug)]
pub enum ReturnStmt {
    BinaryStmtBody(BinaryStmtBody),
    FuncCallStmt(FuncCallStmt),
}

#[derive(Debug)]
pub struct FuncCallStmt {
    pub function_name: String,
    pub arguments: Vec<Stmt>,
}

#[derive(Debug)]
pub struct IfStmtBody {
    pub condition: BinaryStmtBody,
    pub if_block: Vec<Stmt>,
    pub if_block_rt_val: Option<ReturnStmt>,
}

#[derive(Debug)]
pub struct LetStmtBody {
    pub var_name: String,
    pub value: BinaryStmtBody,
}

#[derive(Debug)]
pub struct WhileStmtBody {
    pub condition: BinaryStmtBody,
    pub block: Vec<Stmt>,
}

#[derive(Debug)]
pub struct FuncDeclBody {
    pub func_name: String,
    pub arguments: Vec<Stmt>,
    pub return_value: Option<ReturnStmt>,
    pub block: Vec<Stmt>,
}

/// A flat, single-operator expression: `lhs`, or `lhs OP rhs`. No nesting
/// exists anywhere in the grammar.
#[derive(Debug)]
pub struct BinaryStmtBody {
    pub lhs: String,
    pub rhs: Option<String>,
    pub op: Option<Token>,
}

/// Why parsing failed. Every variant is a structural failure: the whole
/// compilation is abandoned, no partial tree is produced.
#[derive(Debug, PartialEq, Eq, Structural, Clone, Copy)]
pub enum ParseError {
    /// `function` was not followed by a name.
    ExpectedFunctionName,
    /// `let` was not followed by a name.
    ExpectedVariableName,
    /// A required punctuation token was missing or mismatched.
    ExpectedToken,
    /// An argument list held a token that cannot start an argument.
    UnexpectedArgumentToken,
    /// An expression was required but no operand was available.
    InvalidBinaryStatement,
}

/// The mathematical shapes of the tree, with character sequences for names,
/// so that specification code can state what the parser builds.
pub ghost struct BinModel {
    pub lhs: Seq<char>,
    pub rhs: Option<Seq<char>>,
    pub op: Option<TokenModel>,
}

pub ghost struct CallModel {
    pub name: Seq<char>,
    pub args: Seq<StmtModel>,
}

pub ghost enum RetModel {
    Bin(BinModel),
    Call(CallModel),
}

pub ghost enum StmtModel {
    FuncDecl { name: Seq<char>, args: Seq<StmtModel>, ret: Option<RetModel>, block: Seq<StmtModel> },
    WhileStmt { cond: BinModel, block: Seq<StmtModel> },
    IfStmt { cond: BinModel, block: Seq<StmtModel>, ret: Option<RetModel> },
    LetStmt { name: Seq<char>, value: BinModel },
    RassignStmt { name: Seq<char>, value: BinModel },
    BinaryStmt(BinModel),
    FuncCall(CallModel),
}

pub open spec fn bin_model(b: BinaryStmtBody) -> BinModel {
    BinModel {
        lhs: b.lhs@,
        rhs: match b.rhs {
            Option::Some(s) => Option::Some(s@),
            Option::None => Option::None,
        },
        op: match b.op {
            Option::Some(t) => Option::Some(token_model(t)),
            Option::None => Option::None,
        },
    }
}

pub open spec fn stmt_model(s: Stmt) -> StmtModel
    decreases s,
{
    match s {
        Stmt::FuncDecl(f) => StmtModel::FuncDecl {
            name: f.func_name@,
            args: stmt_models(f.arguments@),
            ret: ret_models(f.return_value),
            block: stmt_models(f.block@),
        },
        Stmt::WhileStmt(w) => StmtModel::WhileStmt {
            cond: bin_model(w.condition),
            block: stmt_models(w.block@),
        },
        Stmt::IfStmt(f) => StmtModel::IfStmt {
            cond: bin_model(f.condition),
            block: stmt_models(f.if_block@),
            ret: ret_models(f.if_block_rt_val),
        },
        Stmt::LetStmt(l) => StmtModel::LetStmt { name: l.var_name@, value: bin_model(l.value) },
        Stmt::RassignStmt(l) => StmtModel::RassignStmt {
            name: l.var_name@,
            value: bin_model(l.value),
        },
        Stmt::BinaryStmt(b) => StmtModel::BinaryStmt(bin_model(b)),
        Stmt::FuncCall(c) => StmtModel::FuncCall(call_model(c)),
    }
}

pub open spec fn call_model(c: FuncCallStmt) -> CallModel
    decreases c,
{
    CallModel { name: c.function_name@, args: stmt_models(c.arguments@) }
}

pub open spec fn ret_model(r: ReturnStmt) -> RetModel
    decreases r,
{
    match r {
        ReturnStmt::BinaryStmtBody(b) => RetModel::Bin(bin_model(b)),
        ReturnStmt::FuncCallStmt(c) => RetModel::Call(call_model(c)),
    }
}

pub open spec fn ret_models(r: Option<ReturnStmt>) -> Option<RetModel>
    decreases r,
{
    match r {
        Option::Some(x) => Option::Some(ret_model(x)),
        Option::None => Option::None,
    }
}

pub open spec fn stmt_models(v: Seq<Stmt>) -> Seq<StmtModel>
    decreases v,
{
    if v.len() == 0 {
        Seq::empty()
    } else {
        stmt_models(v.drop_last()).push(stmt_model(v.last()))
    }
}

pub broadcast proof fn lemma_stmt_models(v: Seq<Stmt>)
    ensures
        (#[trigger] stmt_models(v)).len() == v.len(),
        forall|i: int| 0 <= i < v.len() ==> stmt_models(v)[i] == stmt_model(v[i]),
    decreases v.len(),
{
    if v.len() > 0 {
        lemma_stmt_models(v.drop_last());
    }
}

/// Position of the first token at or after `i` that is not a space or tab.
pub open spec fn spec_skip_ws(toks: Seq<TokenModel>, i: int) -> int
    decreases toks.len() - i,
{
    if 0 <= i < toks.len() && (toks[i] is WhiteSpace || toks[i] is Tab) {
        spec_skip_ws(toks, i + 1)
    } else {
        i
    }
}

/// Position of the first newline at or after `i` (or the end of input); a
/// line comment runs up to, and not including, that newline.
pub open spec fn spec_skip_to_newline(toks: Seq<TokenModel>, i: int) -> int
    decreases toks.len() - i,
{
    if 0 <= i < toks.len() && !(toks[i] is NewLine) {
        spec_skip_to_newline(toks, i + 1)
    } else {
        i
    }
}

/// A required token: consumed when it is next, a structural failure
/// otherwise.
pub open spec fn spec_assert_token(toks: Seq<TokenModel>, i: int, t: TokenModel) -> Result<
    int,
    ParseError,
> {
    if 0 <= i < toks.len() && toks[i] == t {
        Result::Ok(i + 1)
    } else {
        Result::Err(ParseError::ExpectedToken)
    }
}

/// Every step of the grammar consumes at least one token and never runs
/// past the end of the input. The recursions below continue at the position
/// a sub-parse returned; this guard keeps them well-founded, and is the
/// identity whenever the sub-parse moved forward and stayed in bounds,
/// which the executable parser separately establishes.
pub open spec fn next_pos(toks: Seq<TokenModel>, i: int, k: int) -> int {
    if i < k <= toks.len() {
        k
    } else {
        i + 1
    }
}

/// The optional operator and right operand that may follow a left operand
/// `x`: nothing before a separator or semicolon; `!=`, `==`, a lone `=`, or
/// any other token verbatim as the operator; then at most one literal as the
/// right operand.
pub open spec fn spec_op_rhs(toks: Seq<TokenModel>, x: Seq<char>, i: int) -> Result<
    (BinModel, int),
    ParseError,
> {
    if 0 <= i < toks.len() && (toks[i] is Comma || toks[i] is ParenClose) {
        Result::Ok((BinModel { lhs: x, rhs: Option::None, op: Option::None }, i))
    } else {
        let j = spec_skip_ws(toks, i);
        if !(0 <= j < toks.len()) {
            Result::Ok((BinModel { lhs: x, rhs: Option::None, op: Option::None }, j))
        } else if toks[j] is SemiColon {
            Result::Ok((BinModel { lhs: x, rhs: Option::None, op: Option::None }, j))
        } else if toks[j] is Exclaim {
            match spec_assert_token(toks, j + 1, TokenModel::Eq) {
                Result::Ok(k) => spec_rhs_part(toks, x, Option::Some(TokenModel::NotEq), k),
                Result::Err(e) => Result::Err(e),
            }
        } else if toks[j] is Eq {
            if 0 <= j + 1 < toks.len() && toks[j + 1] is Eq {
                spec_rhs_part(toks, x, Option::Some(TokenModel::DoubleEq), j + 2)
            } else {
                spec_rhs_part(toks, x, Option::Some(TokenModel::Eq), j + 1)
            }
        } else {
            spec_rhs_part(toks, x, Option::Some(toks[j]), j + 1)
        }
    }
}

pub open spec fn spec_rhs_part(
    toks: Seq<TokenModel>,
    x: Seq<char>,
    op: Option<TokenModel>,
    i: int,
) -> Result<(BinModel, int), ParseError> {
    let j = spec_skip_ws(toks, i);
    if 0 <= j < toks.len() && toks[j] is Literal {
        match toks[j] {
            TokenModel::Literal(y) => Result::Ok(
                (BinModel { lhs: x, rhs: Option::Some(y), op }, j + 1),
            ),
            _ => Result::Err(ParseError::InvalidBinaryStatement),
        }
    } else {
        Result::Ok((BinModel { lhs: x, rhs: Option::None, op }, j))
    }
}

/// A flat expression: a literal read at `i`, or the left operand `lhs`
/// handed in by the caller, followed by `spec_op_rhs`.
pub open spec fn spec_parse_binary(
    toks: Seq<TokenModel>,
    i: int,
    lhs: Option<Seq<char>>,
) -> Result<(BinModel, int), ParseError> {
    if 0 <= i < toks.len() && toks[i] is Literal {
        match toks[i] {
            TokenModel::Literal(x) => spec_op_rhs(toks, x, i + 1),
            _ => Result::Err(ParseError::InvalidBinaryStatement),
        }
    } else {
        match lhs {
            Option::Some(x) => spec_op_rhs(toks, x, i),
            Option::None => Result::Err(ParseError::InvalidBinaryStatement),
        }
    }
}

pub open spec fn args_combine(
    prefix: Seq<StmtModel>,
    r: Result<(Seq<StmtModel>, int), ParseError>,
) -> Result<(Seq<StmtModel>, int), ParseError> {
    match r {
        Result::Ok((s, k)) => Result::Ok((prefix + s, k)),
        Result::Err(e) => Result::Err(e),
    }
}

/// A comma/whitespace-delimited argument list, ended by `)`: each argument
/// is a nested call (a literal immediately followed by `(`) or a flat
/// expression.
pub open spec fn spec_parse_args(toks: Seq<TokenModel>, i: int) -> Result<
    (Seq<StmtModel>, int),
    ParseError,
>
    decreases toks.len() - i,
{
    if !(0 <= i < toks.len()) {
        Result::Ok((Seq::empty(), i))
    } else {
        match toks[i] {
            TokenModel::Literal(val) => {
                let j = spec_skip_ws(toks, i + 1);
                if 0 <= j < toks.len() && toks[j] is ParenOpen {
                    match spec_parse_args(toks, next_pos(toks, i, j + 1)) {
                        Result::Ok((nargs, k)) => args_combine(
                            seq![StmtModel::FuncCall(CallModel { name: val, args: nargs })],
                            spec_parse_args(toks, next_pos(toks, i, k)),
                        ),
                        Result::Err(e) => Result::Err(e),
                    }
                } else {
                    match spec_parse_binary(toks, j, Option::Some(val)) {
                        Result::Ok((b, k)) => args_combine(
                            seq![StmtModel::BinaryStmt(b)],
                            spec_parse_args(toks, next_pos(toks, i, k)),
                        ),
                        Result::Err(e) => Result::Err(e),
                    }
                }
            },
            TokenModel::Comma => spec_parse_args(toks, i + 1),
            TokenModel::WhiteSpace => spec_parse_args(toks, i + 1),
            TokenModel::ParenClose => Result::Ok((Seq::empty(), i + 1)),
            _ => Result::Err(ParseError::UnexpectedArgumentToken),
        }
    }
}

pub open spec fn block_combine(
    prefix: Seq<StmtModel>,
    r: Result<(Seq<StmtModel>, Option<RetModel>, int), ParseError>,
) -> Result<(Seq<StmtModel>, Option<RetModel>, int), ParseError> {
    match r {
        Result::Ok((s, rv, k)) => Result::Ok((prefix + s, rv, k)),
        Result::Err(e) => Result::Err(e),
    }
}

/// After a block ends (at `}`, after a `return`, or at the end of input),
/// one further token is consumed if any remains.
pub open spec fn after_block(toks: Seq<TokenModel>, k: int) -> int {
    if k < toks.len() {
        k + 1
    } else {
        k
    }
}

/// A statement block: `let` bindings, reassignments, calls, `while` loops,
/// nested `if` blocks, and an optional final `return` that terminates the
/// block at once. Unrecognized tokens are skipped; an identifier followed
/// by neither `=` nor `(` is an unhandled continuation and the statement is
/// dropped.
pub open spec fn spec_parse_block(toks: Seq<TokenModel>, i: int) -> Result<
    (Seq<StmtModel>, Option<RetModel>, int),
    ParseError,
>
    decreases toks.len() - i,
{
    if !(0 <= i < toks.len()) {
        Result::Ok((Seq::empty(), Option::None, i))
    } else {
        match toks[i] {
            TokenModel::CurlyClose => Result::Ok((Seq::empty(), Option::None, i + 1)),
            TokenModel::Let => {
                let j = spec_skip_ws(toks, i + 1);
                if 0 <= j < toks.len() && toks[j] is Literal {
                    let x = toks[j]->Literal_0;
                    let j2 = spec_skip_ws(toks, j + 1);
                    match spec_assert_token(toks, j2, TokenModel::Eq) {
                        Result::Ok(j3) => {
                            let j4 = spec_skip_ws(toks, j3);
                            match spec_parse_binary(toks, j4, Option::None) {
                                Result::Ok((b, j5)) => {
                                    match spec_assert_token(toks, j5, TokenModel::SemiColon) {
                                        Result::Ok(j6) => block_combine(
                                            seq![StmtModel::LetStmt { name: x, value: b }],
                                            spec_parse_block(toks, next_pos(toks, i, j6)),
                                        ),
                                        Result::Err(e) => Result::Err(e),
                                    }
                                },
                                Result::Err(e) => Result::Err(e),
                            }
                        },
                        Result::Err(e) => Result::Err(e),
                    }
                } else {
                    Result::Err(ParseError::ExpectedVariableName)
                }
            },
            TokenModel::While => {
                let j = spec_skip_ws(toks, i + 1);
                match spec_assert_token(toks, j, TokenModel::ParenOpen) {
                    Result::Ok(j2) => {
                        match spec_parse_binary(toks, j2, Option::None) {
                            Result::Ok((cond, j3)) => {
                                match spec_assert_token(toks, j3, TokenModel::ParenClose) {
                                    Result::Ok(j4) => {
                                        let j5 = spec_skip_ws(toks, j4);
                                        match spec_parse_block(toks, next_pos(toks, i, j5)) {
                                            Result::Ok((body, _ret, j6)) => block_combine(
                                                seq![
                                                    StmtModel::WhileStmt { cond, block: body },
                                                ],
                                                spec_parse_block(toks, next_pos(toks, i, j6)),
                                            ),
                                            Result::Err(e) => Result::Err(e),
                                        }
                                    },
                                    Result::Err(e) => Result::Err(e),
                                }
                            },
                            Result::Err(e) => Result::Err(e),
                        }
                    },
                    Result::Err(e) => Result::Err(e),
                }
            },
            TokenModel::Literal(x) => {
                let j = spec_skip_ws(toks, i + 1);
                if 0 <= j < toks.len() && toks[j] is Eq {
                    let j2 = spec_skip_ws(toks, j + 1);
                    match spec_parse_binary(toks, j2, Option::None) {
                        Result::Ok((b, j3)) => {
                            match spec_assert_token(toks, j3, TokenModel::SemiColon) {
                                Result::Ok(j4) => block_combine(
                                    seq![StmtModel::RassignStmt { name: x, value: b }],
                                    spec_parse_block(toks, next_pos(toks, i, j4)),
                                ),
                                Result::Err(e) => Result::Err(e),
                            }
                        },
                        Result::Err(e) => Result::Err(e),
                    }
                } else if 0 <= j < toks.len() && toks[j] is ParenOpen {
                    match spec_parse_args(toks, next_pos(toks, i, j + 1)) {
                        Result::Ok((args, j2)) => {
                            match spec_assert_token(toks, j2, TokenModel::SemiColon) {
                                Result::Ok(j3) => block_combine(
                                    seq![StmtModel::FuncCall(CallModel { name: x, args })],
                                    spec_parse_block(toks, next_pos(toks, i, j3)),
                                ),
                                Result::Err(e) => Result::Err(e),
                            }
                        },
                        Result::Err(e) => Result::Err(e),
                    }
                } else {
                    // unhandled continuation: the statement is dropped and
                    // parsing resumes at the undecided token
                    spec_parse_block(toks, next_pos(toks, i, j))
                }
            },
            TokenModel::If => {
                let j = spec_skip_ws(toks, i + 1);
                match spec_assert_token(toks, j, TokenModel::ParenOpen) {
                    Result::Ok(j2) => {
                        match spec_parse_binary(toks, j2, Option::None) {
                            Result::Ok((cond, j3)) => {
                                match spec_assert_token(toks, j3, TokenModel::ParenClose) {
                                    Result::Ok(j4) => {
                                        let j5 = spec_skip_ws(toks, j4);
                                        match spec_parse_block(toks, next_pos(toks, i, j5)) {
                                            Result::Ok((body, ret, j6)) => block_combine(
                                                seq![
                                                    StmtModel::IfStmt {
                                                        cond,
                                                        block: body,
                                                        ret,
                                                    },
                                                ],
                                                spec_parse_block(toks, next_pos(toks, i, j6)),
                                            ),
                                            Result::Err(e) => Result::Err(e),
                                        }
                                    },
                                    Result::Err(e) => Result::Err(e),
                                }
                            },
                            Result::Err(e) => Result::Err(e),
                        }
                    },
                    Result::Err(e) => Result::Err(e),
                }
            },
            TokenModel::Return => {
                let j = spec_skip_ws(toks, i + 1);
                if 0 <= j < toks.len() && toks[j] is Literal {
                    let val = toks[j]->Literal_0;
                    if 0 <= j + 1 < toks.len() && toks[j + 1] is ParenOpen {
                        match spec_parse_args(toks, next_pos(toks, i, j + 2)) {
                            Result::Ok((args, j2)) => {
                                match spec_assert_token(toks, j2, TokenModel::SemiColon) {
                                    Result::Ok(j3) => Result::Ok(
                                        (
                                            Seq::empty(),
                                            Option::Some(
                                                RetModel::Call(CallModel { name: val, args }),
                                            ),
                                            after_block(toks, j3),
                                        ),
                                    ),
                                    Result::Err(e) => Result::Err(e),
                                }
                            },
                            Result::Err(e) => Result::Err(e),
                        }
                    } else {
                        match spec_parse_binary(toks, j + 1, Option::Some(val)) {
                            Result::Ok((b, j2)) => {
                                match spec_assert_token(toks, j2, TokenModel::SemiColon) {
                                    Result::Ok(j3) => Result::Ok(
                                        (
                                            Seq::empty(),
                                            Option::Some(RetModel::Bin(b)),
                                            after_block(toks, j3),
                                        ),
                                    ),
                                    Result::Err(e) => Result::Err(e),
                                }
                            },
                            Result::Err(e) => Result::Err(e),
                        }
                    }
                } else {
                    match spec_assert_token(toks, j, TokenModel::SemiColon) {
                        Result::Ok(j2) => Result::Ok(
                            (Seq::empty(), Option::None, after_block(toks, j2)),
                        ),
                        Result::Err(e) => Result::Err(e),
                    }
                }
            },
            _ => spec_parse_block(toks, i + 1),
        }
    }
}

pub open spec fn top_combine(prefix: Seq<StmtModel>, r: Result<Seq<StmtModel>, ParseError>) -> Result<
    Seq<StmtModel>,
    ParseError,
> {
    match r {
        Result::Ok(s) => Result::Ok(prefix + s),
        Result::Err(e) => Result::Err(e),
    }
}

/// One function declaration, from its `function` keyword to the end of its
/// block: its name, parameter list, body, and optional return value.
pub open spec fn spec_top_decl(toks: Seq<TokenModel>, i: int) -> Result<(StmtModel, int), ParseError> {
    let j = spec_skip_ws(toks, i + 1);
    if 0 <= j < toks.len() && toks[j] is Literal {
        let fn_name = toks[j]->Literal_0;
        match spec_assert_token(toks, j + 1, TokenModel::ParenOpen) {
            Result::Ok(j2) => {
                match spec_parse_args(toks, next_pos(toks, i, j2)) {
                    Result::Ok((args, j3)) => {
                        let j4 = spec_skip_ws(toks, j3);
                        match spec_assert_token(toks, j4, TokenModel::CurlyOpen) {
                            Result::Ok(j5) => {
                                match spec_parse_block(toks, next_pos(toks, i, j5)) {
                                    Result::Ok((block, ret, j6)) => Result::Ok(
                                        (
                                            StmtModel::FuncDecl { name: fn_name, args, ret, block },
                                            j6,
                                        ),
                                    ),
                                    Result::Err(e) => Result::Err(e),
                                }
                            },
                            Result::Err(e) => Result::Err(e),
                        }
                    },
                    Result::Err(e) => Result::Err(e),
                }
            },
            Result::Err(e) => Result::Err(e),
        }
    } else {
        Result::Err(ParseError::ExpectedFunctionName)
    }
}

/// One bare call statement at the top level: IDENT `(` args `)` `;`.
pub open spec fn spec_top_call(toks: Seq<TokenModel>, i: int) -> Result<(StmtModel, int), ParseError> {
    match toks[i] {
        TokenModel::Literal(name) => {
            match spec_assert_token(toks, i + 1, TokenModel::ParenOpen) {
                Result::Ok(j) => {
                    match spec_parse_args(toks, next_pos(toks, i, j)) {
                        Result::Ok((args, j2)) => {
                            match spec_assert_token(toks, j2, TokenModel::SemiColon) {
                                Result::Ok(j3) => Result::Ok(
                                    (StmtModel::FuncCall(CallModel { name, args }), j3),
                                ),
                                Result::Err(e) => Result::Err(e),
                            }
                        },
                        Result::Err(e) => Result::Err(e),
                    }
                },
                Result::Err(e) => Result::Err(e),
            }
        },
        _ => Result::Err(ParseError::ExpectedFunctionName),
    }
}

/// The top level of a program: function declarations, bare call statements,
/// line comments, and nothing else; any other token is skipped.
pub open spec fn spec_parse_top(toks: Seq<TokenModel>, i: int) -> Result<Seq<StmtModel>, ParseError>
    decreases toks.len() - i,
{
    if !(0 <= i < toks.len()) {
        Result::Ok(Seq::empty())
    } else {
        match toks[i] {
            TokenModel::Function => {
                match spec_top_decl(toks, i) {
                    Result::Ok((s, k)) => top_combine(
                        seq![s],
                        spec_parse_top(toks, next_pos(toks, i, k)),
                    ),
                    Result::Err(e) => Result::Err(e),
                }
            },
            TokenModel::Literal(_) => {
                match spec_top_call(toks, i) {
                    Result::Ok((s, k)) => top_combine(
                        seq![s],
                        spec_parse_top(toks, next_pos(toks, i, k)),
                    ),
                    Result::Err(e) => Result::Err(e),
                }
            },
            TokenModel::Comment => spec_parse_top(
                toks,
                next_pos(toks, i, spec_skip_to_newline(toks, i + 1)),
            ),
            _ => spec_parse_top(toks, i + 1),
        }
    }
}

pub open spec fn lhs_model(lhs: Option<&String>) -> Option<Seq<char>> {
    match lhs {
        Option::Some(s) => Option::Some(s@),
        Option::None => Option::None,
    }
}

pub open spec fn opt_token_model(o: Option<Token>) -> Option<TokenModel> {
    match o {
        Option::Some(t) => Option::Some(token_model(t)),
        Option::None => Option::None,
    }
}

fn token_eq(a: &Token, b: &Token) -> (r: bool)
    ensures
        r == (token_model(*a) == token_model(*b)),
{
    match (a, b) {
        (Token::Function, Token::Function) => true,
        (Token::ParenOpen, Token::ParenOpen) => true,
        (Token::ParenClose, Token::ParenClose) => true,
        (Token::CurlyOpen, Token::CurlyOpen) => true,
        (Token::CurlyClose, Token::CurlyClose) => true,
        (Token::SemiColon, Token::SemiColon) => true,
        (Token::Return, Token::Return) => true,
        (Token::Comma, Token::Comma) => true,
        (Token::Tab, Token::Tab) => true,
        (Token::NewLine, Token::NewLine) => true,
        (Token::Eq, Token::Eq) => true,
        (Token::DoubleEq, Token::DoubleEq) => true,
        (Token::Sub, Token::Sub) => true,
        (Token::Add, Token::Add) => true,
        (Token::Mul, Token::Mul) => true,
        (Token::Percent, Token::Percent) => true,
        (Token::Exclaim, Token::Exclaim) => true,
        (Token::GreaterThan, Token::GreaterThan) => true,
        (Token::LessThan, Token::LessThan) => true,
        (Token::Let, Token::Let) => true,
        (Token::Const, Token::Const) => true,
        (Token::NotEq, Token::NotEq) => true,
        (Token::While, Token::While) => true,
        (Token::If, Token::If) => true,
        (Token::Else, Token::Else) => true,
        (Token::Comment, Token::Comment) => true,
        (Token::WhiteSpace, Token::WhiteSpace) => true,
        (Token::Literal(x), Token::Literal(y)) => crate::lexer::str_eq(x.as_str(), y.as_str()),
        (Token::Unknown, Token::Unknown) => true,
        _ => false,
    }
}

fn is_ws_token(t: &Token) -> (r: bool)
    ensures
        r == (token_model(*t) is WhiteSpace || token_model(*t) is Tab),
{
    match t {
        Token::WhiteSpace => true,
        Token::Tab => true,
        _ => false,
    }
}

fn exhaust_whitespace(toks: &Vec<Token>, i: usize) -> (j: usize)
    requires
        i <= toks@.len(),
    ensures
        j as int == spec_skip_ws(token_models(toks@), i as int),
        i <= j <= toks@.len(),
{
    let ghost m = token_models(toks@);
    let n = toks.len();
    let mut j = i;
    loop
        invariant
            i <= j <= n,
            n == toks@.len(),
            m == token_models(toks@),
            spec_skip_ws(m, i as int) == spec_skip_ws(m, j as int),
        ensures
            i <= j <= n,
            spec_skip_ws(m, i as int) == j as int,
        decreases n - j,
    {
        if j < n {
            if is_ws_token(&toks[j]) {
                proof {
                    assert(m[j as int] == token_model(toks@[j as int]));
                    assert(spec_skip_ws(m, j as int) == spec_skip_ws(m, j + 1));
                }
                j += 1;
            } else {
                proof {
                    assert(m[j as int] == token_model(toks@[j as int]));
                    assert(spec_skip_ws(m, j as int) == j as int);
                }
                break ;
            }
        } else {
            proof {
                assert(spec_skip_ws(m, j as int) == j as int);
            }
            break ;
        }
    }
    j
}

fn assert_token(toks: &Vec<Token>, i: usize, token: &Token) -> (r: Result<usize, ParseError>)
    requires
        i <= toks@.len(),
    ensures
        ({
            let m = spec_assert_token(token_models(toks@), i as int, token_model(*token));
            match r {
                Result::Ok(j) => m == Result::<int, ParseError>::Ok(j as int) && j == i + 1 && i
                    < toks@.len(),
                Result::Err(e) => m == Result::<int, ParseError>::Err(e),
            }
        }),
{
    if i < toks.len() && token_eq(&toks[i], token) {
        Result::Ok(i + 1)
    } else {
        Result::Err(ParseError::ExpectedToken)
    }
}

fn is_comma_or_close(t: &Token) -> (r: bool)
    ensures
        r == (token_model(*t) is Comma || token_model(*t) is ParenClose),
{
    match t {
        Token::Comma => true,
        Token::ParenClose => true,
        _ => false,
    }
}

fn parse_rhs_part(toks: &Vec<Token>, x: &str, op: Option<Token>, i: usize) -> (r: Result<
    (BinaryStmtBody, usize),
    ParseError,
>)
    requires
        i <= toks@.len(),
    ensures
        ({
            let m = spec_rhs_part(token_models(toks@), x@, opt_token_model(op), i as int);
            match r {
                Result::Ok((b, j)) => m == Result::<(BinModel, int), ParseError>::Ok(
                    (bin_model(b), j as int),
                ) && i <= j <= toks@.len(),
                Result::Err(e) => m == Result::<(BinModel, int), ParseError>::Err(e),
            }
        }),
{
    let ghost m = token_models(toks@);
    let j = exhaust_whitespace(toks, i);
    if j < toks.len() {
        match &toks[j] {
            Token::Literal(y) => {
                proof {
                    assert(m[j as int] == token_model(toks@[j as int]));
                }
                return Result::Ok(
                    (
                        BinaryStmtBody {
                            lhs: x.to_owned(),
                            rhs: Option::Some(y.clone()),
                            op,
                        },
                        j + 1,
                    ),
                );
            },
            _ => {
                proof {
                    assert(m[j as int] == token_model(toks@[j as int]));
                    assert(!(m[j as int] is Literal));
                }
            },
        }
    }
    Result::Ok((BinaryStmtBody { lhs: x.to_owned(), rhs: Option::None, op }, j))
}

fn parse_op_rhs(toks: &Vec<Token>, x: &str, i: usize) -> (r: Result<
    (BinaryStmtBody, usize),
    ParseError,
>)
    requires
        i <= toks@.len(),
    ensures
        ({
            let m = spec_op_rhs(token_models(toks@), x@, i as int);
            match r {
                Result::Ok((b, j)) => m == Result::<(BinModel, int), ParseError>::Ok(
                    (bin_model(b), j as int),
                ) && i <= j <= toks@.len(),
                Result::Err(e) => m == Result::<(BinModel, int), ParseError>::Err(e),
            }
        }),
{
    let ghost m = token_models(toks@);
    let n = toks.len();
    if i < n && is_comma_or_close(&toks[i]) {
        proof {
            assert(m[i as int] == token_model(toks@[i as int]));
        }
        return Result::Ok((BinaryStmtBody { lhs: x.to_owned(), rhs: Option::None, op: Option::None }, i));
    }
    proof {
        if 0 <= i < toks@.len() {
            assert(m[i as int] == token_model(toks@[i as int]));
        }
    }
    let j = exhaust_whitespace(toks, i);
    if j >= n {
        return Result::Ok((BinaryStmtBody { lhs: x.to_owned(), rhs: Option::None, op: Option::None }, j));
    }
    proof {
        assert(m[j as int] == token_model(toks@[j as int]));
    }
    match &toks[j] {
        Token::SemiColon => Result::Ok(
            (BinaryStmtBody { lhs: x.to_owned(), rhs: Option::None, op: Option::None }, j),
        ),
        Token::Exclaim => {
            match assert_token(toks, j + 1, &Token::Eq) {
                Result::Ok(k) => parse_rhs_part(toks, x, Option::Some(Token::NotEq), k),
                Result::Err(e) => Result::Err(e),
            }
        },
        Token::Eq => {
            let double = j + 1 < n && token_eq(&toks[j + 1], &Token::Eq);
            proof {
                if j + 1 < toks@.len() {
                    assert(m[j + 1] == token_model(toks@[j + 1]));
                }
            }
            if double {
                parse_rhs_part(toks, x, Option::Some(Token::DoubleEq), j + 2)
            } else {
                parse_rhs_part(toks, x, Option::Some(Token::Eq), j + 1)
            }
        },
        _ => {
            let op = (&toks[j]).clone();
            parse_rhs_part(toks, x, Option::Some(op), j + 1)
        },
    }
}

/// A flat expression: the next literal token is the left operand, or, when
/// none is next, `lhs` (already consumed by the caller) is; then at most one
/// operator and one right operand follow.
pub fn parse_binary_stmt(toks: &Vec<Token>, i: usize, lhs: Option<&String>) -> (r: Result<
    (BinaryStmtBody, usize),
    ParseError,
>)
    requires
        i <= toks@.len(),
    ensures
        ({
            let m = spec_parse_binary(token_models(toks@), i as int, lhs_model(lhs));
            match r {
                Result::Ok((b, j)) => m == Result::<(BinModel, int), ParseError>::Ok(
                    (bin_model(b), j as int),
                ) && i <= j <= toks@.len(),
                Result::Err(e) => m == Result::<(BinModel, int), ParseError>::Err(e),
            }
        }),
{
    let ghost m = token_models(toks@);
    if i < toks.len() {
        proof {
            assert(m[i as int] == token_model(toks@[i as int]));
        }
        match &toks[i] {
            Token::Literal(x) => {
                return parse_op_rhs(toks, x.as_str(), i + 1);
            },
            _ => {},
        }
    }
    match lhs {
        Option::Some(passed) => parse_op_rhs(toks, passed.as_str(), i),
        Option::None => Result::Err(ParseError::InvalidBinaryStatement),
    }
}

pub proof fn lemma_models_push(v: Seq<Stmt>, s: Stmt)
    ensures
        stmt_models(v.push(s)) == stmt_models(v) + seq![stmt_model(s)],
{
    broadcast use lemma_stmt_models;

    assert(stmt_models(v.push(s)) =~= stmt_models(v) + seq![stmt_model(s)]);
}

proof fn lemma_args_assoc(
    a: Seq<StmtModel>,
    b: Seq<StmtModel>,
    r: Result<(Seq<StmtModel>, int), ParseError>,
)
    ensures
        args_combine(a, args_combine(b, r)) == args_combine(a + b, r),
{
    match r {
        Result::Ok((s, k)) => {
            assert(a + (b + s) =~= (a + b) + s);
        },
        Result::Err(_) => {},
    }
}

fn parse_fn_arguments(toks: &Vec<Token>, i: usize) -> (r: Result<(Vec<Stmt>, usize), ParseError>)
    requires
        i <= toks@.len(),
    ensures
        ({
            let m = spec_parse_args(token_models(toks@), i as int);
            match r {
                Result::Ok((args, j)) => m == Result::<(Seq<StmtModel>, int), ParseError>::Ok(
                    (stmt_models(args@), j as int),
                ) && i <= j <= toks@.len(),
                Result::Err(e) => m == Result::<(Seq<StmtModel>, int), ParseError>::Err(e),
            }
        }),
    decreases toks@.len() - i,
{
    let ghost m = token_models(toks@);
    let n = toks.len();
    let mut fn_args: Vec<Stmt> = Vec::new();
    let mut cur = i;
    let mut done = false;
    loop
        invariant
            i <= cur <= n,
            n == toks@.len(),
            m == token_models(toks@),
            !done ==> spec_parse_args(m, i as int) == args_combine(
                stmt_models(fn_args@),
                spec_parse_args(m, cur as int),
            ),
            done ==> spec_parse_args(m, i as int) == Result::<
                (Seq<StmtModel>, int),
                ParseError,
            >::Ok((stmt_models(fn_args@), cur as int)),
        ensures
            i <= cur <= n,
            spec_parse_args(m, i as int) == Result::<(Seq<StmtModel>, int), ParseError>::Ok(
                (stmt_models(fn_args@), cur as int),
            ),
        decreases n - cur, (if done {
            0int
        } else {
            1int
        }),
    {
        if done || cur >= n {
            proof {
                if !done {
                    assert(stmt_models(fn_args@) + Seq::<StmtModel>::empty() =~= stmt_models(
                        fn_args@,
                    ));
                }
            }
            break ;
        }
        proof {
            assert(m[cur as int] == token_model(toks@[cur as int]));
        }
        let ghost prev_args = fn_args@;
        let ghost cur0 = cur as int;
        match &toks[cur] {
            Token::Literal(val) => {
                let j = exhaust_whitespace(toks, cur + 1);
                let mut is_call = false;
                if j < n {
                    proof {
                        assert(m[j as int] == token_model(toks@[j as int]));
                    }
                    if token_eq(&toks[j], &Token::ParenOpen) {
                        is_call = true;
                    }
                }
                if is_call {
                    match parse_fn_arguments(toks, j + 1) {
                        Result::Ok((nargs, k)) => {
                            let ghost nargs_m = stmt_models(nargs@);
                            let stmt = Stmt::FuncCall(
                                FuncCallStmt { function_name: val.clone(), arguments: nargs },
                            );
                            proof {
                                assert(next_pos(m, cur0, j + 1) == j + 1);
                                assert(stmt_model(stmt) == StmtModel::FuncCall(
                                    CallModel { name: val@, args: nargs_m },
                                ));
                                assert(next_pos(m, cur0, k as int) == k as int);
                                assert(spec_parse_args(m, cur0) == args_combine(
                                    seq![stmt_model(stmt)],
                                    spec_parse_args(m, k as int),
                                ));
                                lemma_models_push(prev_args, stmt);
                                lemma_args_assoc(
                                    stmt_models(prev_args),
                                    seq![stmt_model(stmt)],
                                    spec_parse_args(m, k as int),
                                );
                            }
                            fn_args.push(stmt);
                            cur = k;
                        },
                        Result::Err(e) => {
                            proof {
                                assert(next_pos(m, cur0, j + 1) == j + 1);
                            }
                            return Result::Err(e);
                        },
                    }
                } else {
                    match parse_binary_stmt(toks, j, Option::Some(val)) {
                        Result::Ok((b, k)) => {
                            let ghost bm = bin_model(b);
                            let stmt = Stmt::BinaryStmt(b);
                            proof {
                                assert(stmt_model(stmt) == StmtModel::BinaryStmt(bm));
                                assert(next_pos(m, cur0, k as int) == k as int);
                                assert(spec_parse_args(m, cur0) == args_combine(
                                    seq![stmt_model(stmt)],
                                    spec_parse_args(m, k as int),
                                ));
                                lemma_models_push(prev_args, stmt);
                                lemma_args_assoc(
                                    stmt_models(prev_args),
                                    seq![stmt_model(stmt)],
                                    spec_parse_args(m, k as int),
                                );
                            }
                            fn_args.push(stmt);
                            cur = k;
                        },
                        Result::Err(e) => {
                            return Result::Err(e);
                        },
                    }
                }
            },
            Token::Comma => {
                cur += 1;
            },
            Token::WhiteSpace => {
                cur += 1;
            },
            Token::ParenClose => {
                proof {
                    assert(stmt_models(prev_args) + Seq::<StmtModel>::empty() =~= stmt_models(
                        prev_args,
                    ));
                }
                cur += 1;
                done = true;
            },
            _ => {
                return Result::Err(ParseError::UnexpectedArgumentToken);
            },
        }
    }
    Result::Ok((fn_args, cur))
}

proof fn lemma_block_assoc(
    a: Seq<StmtModel>,
    b: Seq<StmtModel>,
    r: Result<(Seq<StmtModel>, Option<RetModel>, int), ParseError>,
)
    ensures
        block_combine(a, block_combine(b, r)) == block_combine(a + b, r),
{
    match r {
        Result::Ok((s, rv, k)) => {
            assert(a + (b + s) =~= (a + b) + s);
        },
        Result::Err(_) => {},
    }
}


pub open spec fn opt_stmt_models(o: Option<Stmt>) -> Seq<StmtModel> {
    match o {
        Option::Some(s) => seq![stmt_model(s)],
        Option::None => Seq::empty(),
    }
}

proof fn lemma_block_combine_nil(r: Result<(Seq<StmtModel>, Option<RetModel>, int), ParseError>)
    ensures
        block_combine(Seq::empty(), r) == r,
{
    match r {
        Result::Ok((s, rv, k)) => {
            assert(Seq::<StmtModel>::empty() + s =~= s);
        },
        Result::Err(_) => {},
    }
}

#[verifier::rlimit(100)]
fn parse_let_stmt(toks: &Vec<Token>, cur: usize) -> (r: Result<(Stmt, usize), ParseError>)
    requires
        cur < toks@.len(),
        token_models(toks@)[cur as int] is Let,
    ensures
        ({
            let m = token_models(toks@);
            match r {
                Result::Ok((stmt, k)) => cur < k <= toks@.len() && spec_parse_block(m, cur as int)
                    == block_combine(seq![stmt_model(stmt)], spec_parse_block(m, k as int)),
                Result::Err(e) => spec_parse_block(m, cur as int) == Result::<
                    (Seq<StmtModel>, Option<RetModel>, int),
                    ParseError,
                >::Err(e),
            }
        }),
{
    let ghost m = token_models(toks@);
    let ghost cur0 = cur as int;
    let n = toks.len();
    let j = exhaust_whitespace(toks, cur + 1);
    if j < n {
        proof {
            assert(m[j as int] == token_model(toks@[j as int]));
        }
        match &toks[j] {
            Token::Literal(x) => {
                let j2 = exhaust_whitespace(toks, j + 1);
                match assert_token(toks, j2, &Token::Eq) {
                    Result::Ok(j3) => {
                        let j4 = exhaust_whitespace(toks, j3);
                        match parse_binary_stmt(toks, j4, Option::None) {
                            Result::Ok((b, j5)) => {
                                match assert_token(toks, j5, &Token::SemiColon) {
                                    Result::Ok(j6) => {
                                        let ghost bm = bin_model(b);
                                        let stmt = Stmt::LetStmt(
                                            LetStmtBody { var_name: x.clone(), value: b },
                                        );
                                        proof {
                                            assert(stmt_model(stmt) == StmtModel::LetStmt {
                                                name: x@,
                                                value: bm,
                                            });
                                            assert(next_pos(m, cur0, j6 as int) == j6 as int);
                                        }
                                        Result::Ok((stmt, j6))
                                    },
                                    Result::Err(e) => Result::Err(e),
                                }
                            },
                            Result::Err(e) => Result::Err(e),
                        }
                    },
                    Result::Err(e) => Result::Err(e),
                }
            },
            _ => Result::Err(ParseError::ExpectedVariableName),
        }
    } else {
        Result::Err(ParseError::ExpectedVariableName)
    }
}

#[verifier::rlimit(100)]
fn parse_ident_stmt(toks: &Vec<Token>, cur: usize) -> (r: Result<(Option<Stmt>, usize), ParseError>)
    requires
        cur < toks@.len(),
        token_models(toks@)[cur as int] is Literal,
    ensures
        ({
            let m = token_models(toks@);
            match r {
                Result::Ok((opt, k)) => cur < k <= toks@.len() && spec_parse_block(m, cur as int)
                    == block_combine(opt_stmt_models(opt), spec_parse_block(m, k as int)),
                Result::Err(e) => spec_parse_block(m, cur as int) == Result::<
                    (Seq<StmtModel>, Option<RetModel>, int),
                    ParseError,
                >::Err(e),
            }
        }),
{
    let ghost m = token_models(toks@);
    let ghost cur0 = cur as int;
    let n = toks.len();
    proof {
        assert(m[cur0] == token_model(toks@[cur0]));
    }
    let x = match &toks[cur] {
        Token::Literal(s) => s,
        _ => {
            return Result::Err(ParseError::ExpectedVariableName);
        },
    };
    let j = exhaust_whitespace(toks, cur + 1);
    if j < n {
        proof {
            assert(m[j as int] == token_model(toks@[j as int]));
        }
        match &toks[j] {
            Token::Eq => {
                let j2 = exhaust_whitespace(toks, j + 1);
                match parse_binary_stmt(toks, j2, Option::None) {
                    Result::Ok((b, j3)) => {
                        match assert_token(toks, j3, &Token::SemiColon) {
                            Result::Ok(j4) => {
                                let ghost bm = bin_model(b);
                                let stmt = Stmt::RassignStmt(
                                    LetStmtBody { var_name: x.clone(), value: b },
                                );
                                proof {
                                    assert(stmt_model(stmt) == StmtModel::RassignStmt {
                                        name: x@,
                                        value: bm,
                                    });
                                    assert(next_pos(m, cur0, j4 as int) == j4 as int);
                                }
                                Result::Ok((Option::Some(stmt), j4))
                            },
                            Result::Err(e) => Result::Err(e),
                        }
                    },
                    Result::Err(e) => Result::Err(e),
                }
            },
            Token::ParenOpen => {
                proof {
                    assert(next_pos(m, cur0, j + 1) == j + 1);
                }
                match parse_fn_arguments(toks, j + 1) {
                    Result::Ok((args, j2)) => {
                        match assert_token(toks, j2, &Token::SemiColon) {
                            Result::Ok(j3) => {
                                let ghost args_m = stmt_models(args@);
                                let stmt = Stmt::FuncCall(
                                    FuncCallStmt { function_name: x.clone(), arguments: args },
                                );
                                proof {
                                    assert(stmt_model(stmt) == StmtModel::FuncCall(
                                        CallModel { name: x@, args: args_m },
                                    ));
                                    assert(next_pos(m, cur0, j3 as int) == j3 as int);
                                }
                                Result::Ok((Option::Some(stmt), j3))
                            },
                            Result::Err(e) => Result::Err(e),
                        }
                    },
                    Result::Err(e) => Result::Err(e),
                }
            },
            _ => {
                // unhandled continuation: the identifier is followed by
                // neither `=` nor `(`; the statement is dropped and parsing
                // resumes at the undecided token
                proof {
                    assert(next_pos(m, cur0, j as int) == j as int);
                    lemma_block_combine_nil(spec_parse_block(m, j as int));
                }
                Result::Ok((Option::None, j))
            },
        }
    } else {
        proof {
            assert(next_pos(m, cur0, j as int) == j as int);
            lemma_block_combine_nil(spec_parse_block(m, j as int));
        }
        Result::Ok((Option::None, j))
    }
}

#[verifier::rlimit(100)]
fn parse_return_stmt(toks: &Vec<Token>, cur: usize) -> (r: Result<
    (Option<ReturnStmt>, usize),
    ParseError,
>)
    requires
        cur < toks@.len(),
        token_models(toks@)[cur as int] is Return,
    ensures
        ({
            let m = token_models(toks@);
            match r {
                Result::Ok((rv, k)) => cur < k <= toks@.len() && spec_parse_block(m, cur as int)
                    == Result::<(Seq<StmtModel>, Option<RetModel>, int), ParseError>::Ok(
                    (Seq::empty(), ret_models(rv), after_block(m, k as int)),
                ),
                Result::Err(e) => spec_parse_block(m, cur as int) == Result::<
                    (Seq<StmtModel>, Option<RetModel>, int),
                    ParseError,
                >::Err(e),
            }
        }),
{
    let ghost m = token_models(toks@);
    let ghost cur0 = cur as int;
    let n = toks.len();
    let j = exhaust_whitespace(toks, cur + 1);
    if j < n {
        proof {
            assert(m[j as int] == token_model(toks@[j as int]));
        }
        match &toks[j] {
            Token::Literal(val) => {
                let mut is_call = false;
                if j + 1 < n {
                    proof {
                        assert(m[j + 1] == token_model(toks@[j + 1]));
                    }
                    if token_eq(&toks[j + 1], &Token::ParenOpen) {
                        is_call = true;
                    }
                }
                if is_call {
                    proof {
                        assert(next_pos(m, cur0, j + 2) == j + 2);
                    }
                    match parse_fn_arguments(toks, j + 2) {
                        Result::Ok((args, j2)) => {
                            match assert_token(toks, j2, &Token::SemiColon) {
                                Result::Ok(j3) => {
                                    let ghost args_m = stmt_models(args@);
                                    let rv = Option::Some(
                                        ReturnStmt::FuncCallStmt(
                                            FuncCallStmt {
                                                function_name: val.clone(),
                                                arguments: args,
                                            },
                                        ),
                                    );
                                    proof {
                                        assert(ret_models(rv) == Option::Some(
                                            RetModel::Call(CallModel { name: val@, args: args_m }),
                                        ));
                                    }
                                    Result::Ok((rv, j3))
                                },
                                Result::Err(e) => Result::Err(e),
                            }
                        },
                        Result::Err(e) => Result::Err(e),
                    }
                } else {
                    match parse_binary_stmt(toks, j + 1, Option::Some(val)) {
                        Result::Ok((b, j2)) => {
                            match assert_token(toks, j2, &Token::SemiColon) {
                                Result::Ok(j3) => {
                                    let ghost bm = bin_model(b);
                                    let rv = Option::Some(ReturnStmt::BinaryStmtBody(b));
                                    proof {
                                        assert(ret_models(rv) == Option::Some(RetModel::Bin(bm)));
                                    }
                                    Result::Ok((rv, j3))
                                },
                                Result::Err(e) => Result::Err(e),
                            }
                        },
                        Result::Err(e) => Result::Err(e),
                    }
                }
            },
            _ => {
                match assert_token(toks, j, &Token::SemiColon) {
                    Result::Ok(j2) => Result::Ok((Option::None, j2)),
                    Result::Err(e) => Result::Err(e),
                }
            },
        }
    } else {
        match assert_token(toks, j, &Token::SemiColon) {
            Result::Ok(j2) => Result::Ok((Option::None, j2)),
            Result::Err(e) => Result::Err(e),
        }
    }
}

#[verifier::rlimit(100)]
fn parse_while_stmt(toks: &Vec<Token>, cur: usize) -> (r: Result<(Stmt, usize), ParseError>)
    requires
        cur < toks@.len(),
        token_models(toks@)[cur as int] is While,
    ensures
        ({
            let m = token_models(toks@);
            match r {
                Result::Ok((stmt, k)) => cur < k <= toks@.len() && spec_parse_block(m, cur as int)
                    == block_combine(seq![stmt_model(stmt)], spec_parse_block(m, k as int)),
                Result::Err(e) => spec_parse_block(m, cur as int) == Result::<
                    (Seq<StmtModel>, Option<RetModel>, int),
                    ParseError,
                >::Err(e),
            }
        }),
    decreases toks@.len() - cur, 0int,
{
    let ghost m = token_models(toks@);
    let ghost cur0 = cur as int;
    let n = toks.len();
    proof {
        assert(cur < n);
    }
    let j = exhaust_whitespace(toks, cur + 1);
    match assert_token(toks, j, &Token::ParenOpen) {
        Result::Ok(j2) => {
            match parse_binary_stmt(toks, j2, Option::None) {
                Result::Ok((cond, j3)) => {
                    match assert_token(toks, j3, &Token::ParenClose) {
                        Result::Ok(j4) => {
                            let j5 = exhaust_whitespace(toks, j4);
                            proof {
                                assert(next_pos(m, cur0, j5 as int) == j5 as int);
                            }
                            match parse_block(toks, j5) {
                                Result::Ok((body, _inner_ret, j6)) => {
                                    let ghost cm = bin_model(cond);
                                    let ghost body_m = stmt_models(body@);
                                    let stmt = Stmt::WhileStmt(
                                        WhileStmtBody { condition: cond, block: body },
                                    );
                                    proof {
                                        assert(stmt_model(stmt) == StmtModel::WhileStmt {
                                            cond: cm,
                                            block: body_m,
                                        });
                                        assert(next_pos(m, cur0, j6 as int) == j6 as int);
                                    }
                                    Result::Ok((stmt, j6))
                                },
                                Result::Err(e) => Result::Err(e),
                            }
                        },
                        Result::Err(e) => Result::Err(e),
                    }
                },
                Result::Err(e) => Result::Err(e),
            }
        },
        Result::Err(e) => Result::Err(e),
    }
}

#[verifier::rlimit(100)]
fn parse_if_stmt(toks: &Vec<Token>, cur: usize) -> (r: Result<(Stmt, usize), ParseError>)
    requires
        cur < toks@.len(),
        token_models(toks@)[cur as int] is If,
    ensures
        ({
            let m = token_models(toks@);
            match r {
                Result::Ok((stmt, k)) => cur < k <= toks@.len() && spec_parse_block(m, cur as int)
                    == block_combine(seq![stmt_model(stmt)], spec_parse_block(m, k as int)),
                Result::Err(e) => spec_parse_block(m, cur as int) == Result::<
                    (Seq<StmtModel>, Option<RetModel>, int),
                    ParseError,
                >::Err(e),
            }
        }),
    decreases toks@.len() - cur, 0int,
{
    let ghost m = token_models(toks@);
    let ghost cur0 = cur as int;
    let n = toks.len();
    proof {
        assert(cur < n);
    }
    let j = exhaust_whitespace(toks, cur + 1);
    match assert_token(toks, j, &Token::ParenOpen) {
        Result::Ok(j2) => {
            match parse_binary_stmt(toks, j2, Option::None) {
                Result::Ok((cond, j3)) => {
                    match assert_token(toks, j3, &Token::ParenClose) {
                        Result::Ok(j4) => {
                            let j5 = exhaust_whitespace(toks, j4);
                            proof {
                                assert(next_pos(m, cur0, j5 as int) == j5 as int);
                            }
                            match parse_block(toks, j5) {
                                Result::Ok((body, inner_ret, j6)) => {
                                    let ghost cm = bin_model(cond);
                                    let ghost body_m = stmt_models(body@);
                                    let ghost ret_m = ret_models(inner_ret);
                                    let stmt = Stmt::IfStmt(
                                        IfStmtBody {
                                            condition: cond,
                                            if_block: body,
                                            if_block_rt_val: inner_ret,
                                        },
                                    );
                                    proof {
                                        assert(stmt_model(stmt) == StmtModel::IfStmt {
                                            cond: cm,
                                            block: body_m,
                                            ret: ret_m,
                                        });
                                        assert(next_pos(m, cur0, j6 as int) == j6 as int);
                                    }
                                    Result::Ok((stmt, j6))
                                },
                                Result::Err(e) => Result::Err(e),
                            }
                        },
                        Result::Err(e) => Result::Err(e),
                    }
                },
                Result::Err(e) => Result::Err(e),
            }
        },
        Result::Err(e) => Result::Err(e),
    }
}

/// One statement block, starting at token `i`: the block's statements, its
/// optional return value, and the position after the block (one token past
/// its closing brace).
#[verifier::rlimit(100)]
pub fn parse_block(toks: &Vec<Token>, i: usize) -> (r: Result<
    (Vec<Stmt>, Option<ReturnStmt>, usize),
    ParseError,
>)
    requires
        i <= toks@.len(),
    ensures
        ({
            let m = spec_parse_block(token_models(toks@), i as int);
            match r {
                Result::Ok((stmts, rv, j)) => m == Result::<
                    (Seq<StmtModel>, Option<RetModel>, int),
                    ParseError,
                >::Ok((stmt_models(stmts@), ret_models(rv), j as int)) && i <= j <= toks@.len(),
                Result::Err(e) => m == Result::<
                    (Seq<StmtModel>, Option<RetModel>, int),
                    ParseError,
                >::Err(e),
            }
        }),
    decreases toks@.len() - i, 1int,
{
    let ghost m = token_models(toks@);
    let n = toks.len();
    let mut blocks: Vec<Stmt> = Vec::new();
    let mut ret_val: Option<ReturnStmt> = Option::None;
    let mut cur = i;
    let mut done = false;
    loop
        invariant
            i <= cur <= n,
            n == toks@.len(),
            m == token_models(toks@),
            !done ==> ret_val is None && spec_parse_block(m, i as int) == block_combine(
                stmt_models(blocks@),
                spec_parse_block(m, cur as int),
            ),
            done ==> spec_parse_block(m, i as int) == Result::<
                (Seq<StmtModel>, Option<RetModel>, int),
                ParseError,
            >::Ok((stmt_models(blocks@), ret_models(ret_val), after_block(m, cur as int))),
        ensures
            i <= cur <= n,
            spec_parse_block(m, i as int) == Result::<
                (Seq<StmtModel>, Option<RetModel>, int),
                ParseError,
            >::Ok((stmt_models(blocks@), ret_models(ret_val), after_block(m, cur as int))),
        decreases n - cur, (if done {
            0int
        } else {
            1int
        }),
    {
        if done || cur >= n {
            proof {
                if !done {
                    assert(stmt_models(blocks@) + Seq::<StmtModel>::empty() =~= stmt_models(
                        blocks@,
                    ));
                }
            }
            break ;
        }
        proof {
            assert(m[cur as int] == token_model(toks@[cur as int]));
        }
        let ghost prev = blocks@;
        match &toks[cur] {
            Token::CurlyClose => {
                proof {
                    assert(stmt_models(prev) + Seq::<StmtModel>::empty() =~= stmt_models(prev));
                }
                done = true;
            },
            Token::Let => {
                match parse_let_stmt(toks, cur) {
                    Result::Ok((stmt, k)) => {
                        proof {
                            lemma_models_push(prev, stmt);
                            lemma_block_assoc(
                                stmt_models(prev),
                                seq![stmt_model(stmt)],
                                spec_parse_block(m, k as int),
                            );
                        }
                        blocks.push(stmt);
                        cur = k;
                    },
                    Result::Err(e) => {
                        return Result::Err(e);
                    },
                }
            },
            Token::While => {
                match parse_while_stmt(toks, cur) {
                    Result::Ok((stmt, k)) => {
                        proof {
                            lemma_models_push(prev, stmt);
                            lemma_block_assoc(
                                stmt_models(prev),
                                seq![stmt_model(stmt)],
                                spec_parse_block(m, k as int),
                            );
                        }
                        blocks.push(stmt);
                        cur = k;
                    },
                    Result::Err(e) => {
                        return Result::Err(e);
                    },
                }
            },
            Token::If => {
                match parse_if_stmt(toks, cur) {
                    Result::Ok((stmt, k)) => {
                        proof {
                            lemma_models_push(prev, stmt);
                            lemma_block_assoc(
                                stmt_models(prev),
                                seq![stmt_model(stmt)],
                                spec_parse_block(m, k as int),
                            );
                        }
                        blocks.push(stmt);
                        cur = k;
                    },
                    Result::Err(e) => {
                        return Result::Err(e);
                    },
                }
            },
            Token::Literal(_) => {
                match parse_ident_stmt(toks, cur) {
                    Result::Ok((opt, k)) => {
                        match opt {
                            Option::Some(stmt) => {
                                proof {
                                    lemma_models_push(prev, stmt);
                                    lemma_block_assoc(
                                        stmt_models(prev),
                                        seq![stmt_model(stmt)],
                                        spec_parse_block(m, k as int),
                                    );
                                }
                                blocks.push(stmt);
                            },
                            Option::None => {
                                proof {
                                    lemma_block_assoc(
                                        stmt_models(prev),
                                        Seq::empty(),
                                        spec_parse_block(m, k as int),
                                    );
                                    assert(stmt_models(prev) + Seq::<StmtModel>::empty()
                                        =~= stmt_models(prev));
                                }
                            },
                        }
                        cur = k;
                    },
                    Result::Err(e) => {
                        return Result::Err(e);
                    },
                }
            },
            Token::Return => {
                match parse_return_stmt(toks, cur) {
                    Result::Ok((rv, k)) => {
                        proof {
                            assert(stmt_models(prev) + Seq::<StmtModel>::empty() =~= stmt_models(
                                prev,
                            ));
                        }
                        ret_val = rv;
                        cur = k;
                        done = true;
                    },
                    Result::Err(e) => {
                        return Result::Err(e);
                    },
                }
            },
            _ => {
                cur += 1;
            },
        }
    }
    if cur < n {
        cur += 1;
    }
    Result::Ok((blocks, ret_val, cur))
}


proof fn lemma_top_assoc(
    a: Seq<StmtModel>,
    b: Seq<StmtModel>,
    r: Result<Seq<StmtModel>, ParseError>,
)
    ensures
        top_combine(a, top_combine(b, r)) == top_combine(a + b, r),
{
    match r {
        Result::Ok(s) => {
            assert(a + (b + s) =~= (a + b) + s);
        },
        Result::Err(_) => {},
    }
}

fn exhaust_comment(toks: &Vec<Token>, i: usize) -> (j: usize)
    requires
        i <= toks@.len(),
    ensures
        j as int == spec_skip_to_newline(token_models(toks@), i as int),
        i <= j <= toks@.len(),
{
    let ghost m = token_models(toks@);
    let n = toks.len();
    let mut j = i;
    loop
        invariant
            i <= j <= n,
            n == toks@.len(),
            m == token_models(toks@),
            spec_skip_to_newline(m, i as int) == spec_skip_to_newline(m, j as int),
        ensures
            i <= j <= n,
            spec_skip_to_newline(m, i as int) == j as int,
        decreases n - j,
    {
        if j < n {
            proof {
                assert(m[j as int] == token_model(toks@[j as int]));
            }
            if token_eq(&toks[j], &Token::NewLine) {
                proof {
                    assert(spec_skip_to_newline(m, j as int) == j as int);
                }
                break ;
            } else {
                proof {
                    assert(spec_skip_to_newline(m, j as int) == spec_skip_to_newline(m, j + 1));
                }
                j += 1;
            }
        } else {
            proof {
                assert(spec_skip_to_newline(m, j as int) == j as int);
            }
            break ;
        }
    }
    j
}

#[verifier::rlimit(100)]
fn parse_func_decl(toks: &Vec<Token>, cur: usize) -> (r: Result<(Stmt, usize), ParseError>)
    requires
        cur < toks@.len(),
        token_models(toks@)[cur as int] is Function,
    ensures
        ({
            let m = token_models(toks@);
            match r {
                Result::Ok((stmt, k)) => cur < k <= toks@.len() && spec_top_decl(m, cur as int)
                    == Result::<(StmtModel, int), ParseError>::Ok((stmt_model(stmt), k as int)),
                Result::Err(e) => spec_top_decl(m, cur as int) == Result::<
                    (StmtModel, int),
                    ParseError,
                >::Err(e),
            }
        }),
{
    let ghost m = token_models(toks@);
    let ghost cur0 = cur as int;
    let n = toks.len();
    let j = exhaust_whitespace(toks, cur + 1);
    if j < n {
        proof {
            assert(m[j as int] == token_model(toks@[j as int]));
        }
        match &toks[j] {
            Token::Literal(fn_name) => {
                match assert_token(toks, j + 1, &Token::ParenOpen) {
                    Result::Ok(j2) => {
                        proof {
                            assert(next_pos(m, cur0, j2 as int) == j2 as int);
                        }
                        match parse_fn_arguments(toks, j2) {
                            Result::Ok((args, j3)) => {
                                let j4 = exhaust_whitespace(toks, j3);
                                match assert_token(toks, j4, &Token::CurlyOpen) {
                                    Result::Ok(j5) => {
                                        proof {
                                            assert(next_pos(m, cur0, j5 as int) == j5 as int);
                                        }
                                        match parse_block(toks, j5) {
                                            Result::Ok((block, ret, j6)) => {
                                                let ghost args_m = stmt_models(args@);
                                                let ghost block_m = stmt_models(block@);
                                                let ghost ret_m = ret_models(ret);
                                                let stmt = Stmt::FuncDecl(
                                                    FuncDeclBody {
                                                        func_name: fn_name.clone(),
                                                        arguments: args,
                                                        return_value: ret,
                                                        block,
                                                    },
                                                );
                                                proof {
                                                    assert(stmt_model(stmt) == StmtModel::FuncDecl {
                                                        name: fn_name@,
                                                        args: args_m,
                                                        ret: ret_m,
                                                        block: block_m,
                                                    });
                                                    assert(next_pos(m, cur0, j6 as int)
                                                        == j6 as int);
                                                }
                                                Result::Ok((stmt, j6))
                                            },
                                            Result::Err(e) => Result::Err(e),
                                        }
                                    },
                                    Result::Err(e) => Result::Err(e),
                                }
                            },
                            Result::Err(e) => Result::Err(e),
                        }
                    },
                    Result::Err(e) => Result::Err(e),
                }
            },
            _ => Result::Err(ParseError::ExpectedFunctionName),
        }
    } else {
        Result::Err(ParseError::ExpectedFunctionName)
    }
}

#[verifier::rlimit(100)]
fn parse_top_call(toks: &Vec<Token>, cur: usize) -> (r: Result<(Stmt, usize), ParseError>)
    requires
        cur < toks@.len(),
        token_models(toks@)[cur as int] is Literal,
    ensures
        ({
            let m = token_models(toks@);
            match r {
                Result::Ok((stmt, k)) => cur < k <= toks@.len() && spec_top_call(m, cur as int)
                    == Result::<(StmtModel, int), ParseError>::Ok((stmt_model(stmt), k as int)),
                Result::Err(e) => spec_top_call(m, cur as int) == Result::<
                    (StmtModel, int),
                    ParseError,
                >::Err(e),
            }
        }),
{
    let ghost m = token_models(toks@);
    let ghost cur0 = cur as int;
    proof {
        assert(m[cur0] == token_model(toks@[cur0]));
    }
    let name = match &toks[cur] {
        Token::Literal(s) => s,
        _ => {
            return Result::Err(ParseError::ExpectedFunctionName);
        },
    };
    let n = toks.len();
    proof {
        assert(cur < n);
    }
    match assert_token(toks, cur + 1, &Token::ParenOpen) {
        Result::Ok(j) => {
            proof {
                assert(next_pos(m, cur0, j as int) == j as int);
            }
            match parse_fn_arguments(toks, j) {
                Result::Ok((args, j2)) => {
                    match assert_token(toks, j2, &Token::SemiColon) {
                        Result::Ok(j3) => {
                            let ghost args_m = stmt_models(args@);
                            let stmt = Stmt::FuncCall(
                                FuncCallStmt { function_name: name.clone(), arguments: args },
                            );
                            proof {
                                assert(stmt_model(stmt) == StmtModel::FuncCall(
                                    CallModel { name: name@, args: args_m },
                                ));
                                assert(next_pos(m, cur0, j3 as int) == j3 as int);
                            }
                            Result::Ok((stmt, j3))
                        },
                        Result::Err(e) => Result::Err(e),
                    }
                },
                Result::Err(e) => Result::Err(e),
            }
        },
        Result::Err(e) => Result::Err(e),
    }
}

proof fn lemma_top_combine_nil(r: Result<Seq<StmtModel>, ParseError>)
    ensures
        top_combine(Seq::empty(), r) == r,
{
    match r {
        Result::Ok(s) => {
            assert(Seq::<StmtModel>::empty() + s =~= s);
        },
        Result::Err(_) => {},
    }
}

#[verifier::rlimit(100)]
fn parse_top_step(toks: &Vec<Token>, cur: usize) -> (r: Result<(Option<Stmt>, usize), ParseError>)
    requires
        cur < toks@.len(),
    ensures
        ({
            let m = token_models(toks@);
            match r {
                Result::Ok((opt, k)) => cur < k <= toks@.len() && spec_parse_top(m, cur as int)
                    == top_combine(opt_stmt_models(opt), spec_parse_top(m, k as int)),
                Result::Err(e) => spec_parse_top(m, cur as int) == Result::<
                    Seq<StmtModel>,
                    ParseError,
                >::Err(e),
            }
        }),
{
    let ghost m = token_models(toks@);
    let ghost cur0 = cur as int;
    let n = toks.len();
    proof {
        assert(m[cur0] == token_model(toks@[cur0]));
    }
    match &toks[cur] {
        Token::Function => {
            match parse_func_decl(toks, cur) {
                Result::Ok((stmt, k)) => {
                    proof {
                        assert(next_pos(m, cur0, k as int) == k as int);
                    }
                    Result::Ok((Option::Some(stmt), k))
                },
                Result::Err(e) => Result::Err(e),
            }
        },
        Token::Literal(_) => {
            match parse_top_call(toks, cur) {
                Result::Ok((stmt, k)) => {
                    proof {
                        assert(next_pos(m, cur0, k as int) == k as int);
                    }
                    Result::Ok((Option::Some(stmt), k))
                },
                Result::Err(e) => Result::Err(e),
            }
        },
        Token::Comment => {
            let j = exhaust_comment(toks, cur + 1);
            proof {
                assert(next_pos(m, cur0, j as int) == j as int);
                lemma_top_combine_nil(spec_parse_top(m, j as int));
            }
            Result::Ok((Option::None, j))
        },
        _ => {
            proof {
                lemma_top_combine_nil(spec_parse_top(m, cur0 + 1));
            }
            Result::Ok((Option::None, cur + 1))
        },
    }
}

/// Turns the whole token sequence into the program's statement sequence.
/// Fail-fast: the first structural fault abandons the compilation and
/// reports which requirement was violated.
#[verifier::rlimit(100)]
pub fn parse(token_stream: Vec<Token>) -> (r: Result<Vec<Stmt>, ParseError>)
    ensures
        ({
            let m = spec_parse_top(token_models(token_stream@), 0);
            match r {
                Result::Ok(tree) => m == Result::<Seq<StmtModel>, ParseError>::Ok(
                    stmt_models(tree@),
                ),
                Result::Err(e) => m == Result::<Seq<StmtModel>, ParseError>::Err(e),
            }
        }),
{
    let toks = &token_stream;
    let ghost m = token_models(token_stream@);
    let n = toks.len();
    let mut tree: Vec<Stmt> = Vec::new();
    let mut cur: usize = 0;
    while cur < n
        invariant
            cur <= n,
            n == toks@.len(),
            toks@ == token_stream@,
            m == token_models(token_stream@),
            spec_parse_top(m, 0) == top_combine(stmt_models(tree@), spec_parse_top(m, cur as int)),
        decreases n - cur,
    {
        let ghost prev = tree@;
        match parse_top_step(toks, cur) {
            Result::Ok((opt, k)) => {
                match opt {
                    Option::Some(stmt) => {
                        proof {
                            lemma_models_push(prev, stmt);
                            lemma_top_assoc(
                                stmt_models(prev),
                                seq![stmt_model(stmt)],
                                spec_parse_top(m, k as int),
                            );
                        }
                        tree.push(stmt);
                    },
                    Option::None => {
                        proof {
                            lemma_top_assoc(
                                stmt_models(prev),
                                Seq::empty(),
                                spec_parse_top(m, k as int),
                            );
                            assert(stmt_models(prev) + Seq::<StmtModel>::empty() =~= stmt_models(
                                prev,
                            ));
                        }
                    },
                }
                cur = k;
            },
            Result::Err(e) => {
                proof {
                    assert(spec_parse_top(m, cur as int) == Result::<
                        Seq<StmtModel>,
                        ParseError,
                    >::Err(e));
                    assert(top_combine(stmt_models(tree@), spec_parse_top(m, cur as int))
                        == Result::<Seq<StmtModel>, ParseError>::Err(e));
                    assert(spec_parse_top(m, 0) == Result::<Seq<StmtModel>, ParseError>::Err(e));
                }
                return Result::Err(e);
            },
        }
    }
    proof {
        assert(stmt_models(tree@) + Seq::<StmtModel>::empty() =~= stmt_models(tree@));
    }
    Result::Ok(tree)
}

} // verus!
