use vstd::prelude::*;

pub mod analysis;
pub mod codegen;
pub mod lexer;
pub mod parser;

use crate::codegen::spec_wat;
use crate::lexer::spec_lex;
use crate::parser::{ParseError, StmtModel, spec_parse_top};

verus! {

/// Compiles one source text into the stack-machine module text: lexing,
/// parsing, dead-code elimination of each function's body, and code
/// generation. The first structural parse fault abandons the whole
/// compilation and reports it.
pub fn js2wat(code: String) -> (r: Result<String, ParseError>)
    ensures
        ({
            let p = spec_parse_top(spec_lex(code@), 0);
            match r {
                Result::Ok(s) => p is Ok && s@ == spec_wat(p->Ok_0),
                Result::Err(e) => p == Result::<Seq<StmtModel>, ParseError>::Err(e),
            }
        }),
{
    let lexed = crate::lexer::lex(code);
    match crate::parser::parse(lexed) {
        Result::Ok(parsed) => Result::Ok(crate::codegen::wat_gen(parsed)),
        Result::Err(e) => Result::Err(e),
    }
}

} // verus!
