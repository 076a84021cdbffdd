//! A template engine. A program declares structs and enums, implementations
//! that tags bind to them, extern types and rewrite rules; running it yields
//! one text.
pub mod ast;
pub mod grammar;
pub mod parser;
pub mod pattern;
pub mod processor;
pub mod text;

use vstd::prelude::*;
use crate::ast::{ast_wf, Ast};
use crate::grammar::{empty_program, program_of, program_view};
use crate::parser::{is_space, is_syntax_error, parse};
use crate::processor::{lemma_empty_program, process, program_output, result_view, scope_view};

verus! {

/// Parses `content` and runs the program with `separator` after each emitted
/// unit and `variables` as the scope of injects and rewrite templates. The
/// result is a syntax error exactly when the source does not follow the
/// grammar, and otherwise what running the program it declares gives.
/// `on_import` resolves import paths; imports are collected by the parser and
/// not yet spliced into the program, so it is not called.
pub fn generate<F>(content: &str, separator: &str, variables: Vec<(String, String)>, on_import: F) -> (r: Result<String, String>)
    where
        F: FnMut(&str) -> Result<String, String>,
    ensures
        match program_of(content@) {
            None => r is Err && is_syntax_error(r->Err_0@),
            Some(v) => exists|ast: Ast|
                #![trigger program_view(ast)]
                program_view(ast) == v && ast_wf(ast) && program_output(ast, separator@, scope_view(variables@))
                    == result_view(r),
        },
        program_of(content@) == Some(empty_program()) ==> r is Ok && r->Ok_0@ == Seq::<char>::empty(),
        (forall|i: int| 0 <= i < content@.len() ==> is_space(#[trigger] content@[i])) ==> r is Ok && r->Ok_0@ == Seq::<char>::empty(),
{
    let ast = match parse(content) {
        Ok(ast) => ast,
        Err(e) => return Err(e),
    };
    proof {
        let v = program_view(ast);
        assert(v.imports.len() == ast.imports.len() && v.injects.len() == ast.injects.len() && v.externs.len()
            == ast.externs.len() && v.structs.len() == ast.structs.len() && v.enums.len() == ast.enums.len()
            && v.implementations.len() == ast.implementations.len() && v.replacements.len() == ast.replacements.len());
        if ast.imports.len() == 0 && ast.injects.len() == 0 && ast.externs.len() == 0 && ast.structs.len() == 0
            && ast.enums.len() == 0 && ast.implementations.len() == 0 && ast.replacements.len() == 0 {
            lemma_empty_program(ast, separator@, scope_view(variables@));
        }
    }
    let r = process(&ast, separator, variables, on_import);
    assert(program_view(ast) == program_view(ast));
    r
}

} // verus!
