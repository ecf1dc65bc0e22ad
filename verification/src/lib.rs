//! Zinc: a transpiler from a small scripting language to Rust source text.
//!
//! The pipeline parses program text into an abstract syntax tree and lowers
//! that tree, statement by statement, to output text.  Parsing either yields
//! a tree or a structured diagnostic with a source location; lowering is a
//! pure function of the tree, with a fixed rewrite table for builtin calls,
//! desugaring of the pipeline operator, and re-escaping of string literals.

pub mod ast;
pub mod diag;
pub mod escape;
pub mod laws;
pub mod lexer;
pub mod lower;
pub mod parser;
pub mod text;

use vstd::prelude::*;

pub use crate::diag::ZincError;
pub use crate::diag::format_error_json;
pub use crate::escape::transpile_string;
pub use crate::lower::transpile_call_with_args;
pub use crate::lower::transpile_member_call_with_args;
pub use crate::parser::ZincParser;
pub use crate::text::is_simple_identifier;

use crate::ast::Program;
use crate::ast::wf_program;
use crate::diag::is_no_statements_error;
use crate::diag::is_syntax_error_for;
use crate::diag::no_statements_error;
use crate::lexer::scan;
use crate::lexer::ws_comments_only;
use crate::lower::program_text;
use crate::lower::transpile_program;
use crate::parser::parses_program;
use crate::parser::sp_program;
use crate::parser::strip_bom;

verus! {

/// Transpiles Zinc source text to output text, or fails with a diagnostic.
///
/// The call fails exactly at the two failure points of the pipeline: a parse
/// failure, reported at its source location, and a syntactically valid input
/// with no statements.  On success, the output is the lowering of a program
/// that parses from the scan of the mark-stripped source and has at least
/// one statement; every other shortcoming of the input degrades to empty
/// text inside the output rather than to an error.
pub fn transpile_with_error(source: &str) -> (r: Result<String, ZincError>)
    requires
        source@.len() < usize::MAX,
    ensures
        match r {
            Ok(out) => exists|p: Program|
                #[trigger] wf_program(p) && p.stmts@.len() > 0 && (scan(strip_bom(source@)) matches
                    Ok(ts) && parses_program(ts, p)) && out@ == program_text(p),
            Err(e) => is_no_statements_error(e) || is_syntax_error_for(e, strip_bom(source@)),
        },
        ws_comments_only(strip_bom(source@)) <==> (r matches Err(e) && is_no_statements_error(e)),
        match scan(strip_bom(source@)) {
            Ok(ts) => r is Ok <==> (sp_program(ts) is Ok && !ws_comments_only(
                strip_bom(source@),
            )),
            Err(_) => r is Err,
        },
        scan(strip_bom(source@)) is Err ==> (r is Err && !(r matches Err(e)
            && is_no_statements_error(e))),
        scan(strip_bom(source@)) matches Err(at) ==> (r matches Err(e) && e.line
            == crate::diag::line_of(strip_bom(source@), at) && e.column == crate::diag::col_of(
            strip_bom(source@),
            at,
        ) && e.message@ == (if at < strip_bom(source@).len() {
            "Unexpected character"@
        } else {
            "Unterminated string literal"@
        })),
        match scan(strip_bom(source@)) {
            Ok(ts) => match sp_program(ts) {
                Err(at) => {
                    let failed_at = if 0 <= at < ts.len() {
                        ts[at].2
                    } else {
                        strip_bom(source@).len() as int
                    };
                    r matches Err(e) && e.line == crate::diag::line_of(
                        strip_bom(source@),
                        failed_at,
                    ) && e.column == crate::diag::col_of(strip_bom(source@), failed_at)
                        && e.message@ == (if 0 <= at < ts.len() {
                        "Unexpected token"@
                    } else {
                        "Unexpected end of input"@
                    })
                },
                Ok(_) => true,
            },
            Err(_) => true,
        },
{
    let prog = match ZincParser::parse_program(source) {
        Ok(p) => p,
        Err(e) => {
            proof {
                // A syntax diagnostic is never the empty-program diagnostic:
                // the two fixed suggestion texts differ.
                reveal_strlit("Check syntax near the reported location.");
                reveal_strlit("Add at least one statement.");
                assert(e.suggestion@ == "Check syntax near the reported location."@);
                assert("Check syntax near the reported location."@.len() != "Add at least one statement."@.len());
                assert(!is_no_statements_error(e));
            }
            return Err(e);
        },
    };
    if prog.stmts.len() == 0 {
        return Err(no_statements_error());
    }
    let out = transpile_program(&prog);
    proof {
        assert(wf_program(prog) && prog.stmts@.len() > 0 && (scan(strip_bom(source@)) matches Ok(ts)
            && parses_program(ts, prog)) && out@ == program_text(prog));
    }
    Ok(out)
}

/// Transpiles Zinc source text to output text, discarding any diagnostic:
/// a failed transpile yields empty output.
pub fn transpile(source: &str) -> (r: String)
    requires
        source@.len() < usize::MAX,
    ensures
        match scan(strip_bom(source@)) {
            Ok(ts) => {
                if sp_program(ts) is Ok && !ws_comments_only(strip_bom(source@)) {
                    exists|p: Program|
                        #[trigger] wf_program(p) && p.stmts@.len() > 0 && parses_program(ts, p)
                            && r@ == program_text(p)
                } else {
                    r@.len() == 0
                }
            },
            Err(_) => r@.len() == 0,
        },
{
    match transpile_with_error(source) {
        Ok(out) => out,
        Err(_) => String::new(),
    }
}

} // verus!
