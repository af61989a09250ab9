//! A small ahead-of-time compiler pipeline for a restricted, statically typed
//! source language: module resolution, type checking, and code generation into
//! a low-level intermediate representation, together with the two memory
//! management primitives that support them (a bump arena for compiler-owned
//! data and a reference-counted heap tracker for generated-program objects).

pub mod arena;
pub mod code_buffer;
pub mod codegen;
pub mod gc;
pub mod interp;
pub mod lexer;
pub mod parser;
pub mod resolver;
pub mod symbol_table;
pub mod text;
pub mod type_checker;
pub mod types;

use crate::codegen::{
    cg_err_view, spec_generate, CodegenError, CodegenErrV, GenSt, Instruction, IrFunctionV,
    IrModule,
};
use crate::lexer::{spec_tokens, Lexer};
use crate::parser::{ast_view, spec_parse_program_stmts, AstV, ParseError, Parser};
use crate::type_checker::{err_view, spec_check, TypeChecker, TypeError, TypeErrorV};
use vstd::prelude::*;

verus! {

/// Options for one compiler invocation.
pub struct CompilerOptions {
    /// Target triple for the external backend; `None` selects the host.
    pub target: Option<String>,
    /// Path of the entry module.
    pub input_file: String,
    /// Path of the object file to produce.
    pub output_file: String,
}

impl Default for CompilerOptions {
    fn default() -> (r: Self)
        ensures
            r.target is None,
            r.input_file@ == Seq::<char>::empty(),
            r.output_file@ == Seq::<char>::empty(),
    {
        CompilerOptions { target: None, input_file: String::new(), output_file: String::new() }
    }
}

/// A failure in some stage of compiling one module.
#[derive(Debug)]
pub enum CompileError {
    /// The source did not parse.
    Parse(ParseError),
    /// The tree did not type-check.
    Type(TypeError),
    /// Code generation failed.
    Codegen(CodegenError),
}

/// The mathematical form of a compilation failure.
#[verifier::ext_equal]
pub enum CompileErrV {
    Parse,
    Type(TypeErrorV),
    Codegen(CodegenErrV),
}

/// The mathematical form of a compilation failure value.
pub open spec fn compile_err_view(e: CompileError) -> CompileErrV {
    match e {
        CompileError::Parse(_) => CompileErrV::Parse,
        CompileError::Type(t) => CompileErrV::Type(err_view(t)),
        CompileError::Codegen(c) => CompileErrV::Codegen(cg_err_view(c)),
    }
}

/// What compiling one module's source yields: the source is scanned and
/// parsed, the tree is checked in an empty environment, and code is
/// generated into a fresh intermediate module whose entry function is
/// `main`; the first failing stage aborts the compilation.
pub open spec fn spec_compile(src: Seq<char>) -> Result<Seq<IrFunctionV>, CompileErrV> {
    let toks = spec_tokens(src, 0);
    match spec_parse_program_stmts(toks, 0) {
        None => Err(CompileErrV::Parse),
        Some(sj) => match spec_check(AstV::Program(sj.0), Seq::empty()) {
            Err(e) => Err(CompileErrV::Type(e)),
            Ok(_) => match spec_generate(
                sj.0,
                GenSt { vars: Seq::empty(), next_slot: 0, gc: Map::empty() },
                Seq::empty(),
                Seq::empty(),
            ) {
                Err(e) => Err(CompileErrV::Codegen(e)),
                Ok(d) => Ok(
                    d.0.push(
                        IrFunctionV {
                            name: "main"@,
                            instructions: d.1 + seq![Instruction::Ret],
                        },
                    ),
                ),
            },
        },
    }
}

/// Compiles one module's source text to an intermediate module: scanning,
/// parsing, type checking and code generation in order, with the heap
/// tracker torn down at the end of the unit.
pub fn compile_source(source: &str) -> (r: Result<IrModule, CompileError>)
    ensures
        ({
            match (r, spec_compile(source@)) {
                (Ok(m), Ok(f)) => m@ == f,
                (Err(e), Err(ev)) => compile_err_view(e) == ev,
                _ => false,
            }
        }),
{
    let lexer = Lexer::new(source.to_owned());
    let mut parser = Parser::new(lexer);
    let ast = match parser.parse_program() {
        Ok(a) => a,
        Err(e) => {
            return Err(CompileError::Parse(e));
        },
    };
    let mut checker = TypeChecker::new();
    match checker.check(&ast) {
        Ok(_) => {},
        Err(e) => {
            return Err(CompileError::Type(e));
        },
    }
    let mut generator = crate::codegen::CodeGenerator::new();
    match generator.generate(&ast) {
        Ok(_) => {},
        Err(e) => {
            return Err(CompileError::Codegen(e));
        },
    }
    let _reclaimed = generator.finish();
    Ok(generator.into_module())
}

} // verus!
