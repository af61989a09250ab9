use tsc_core::codegen::Instruction;
use tsc_core::interp::run_main;
use tsc_core::{compile_source, CompileError};
use tsc_core::type_checker::TypeError;

#[test]
fn a_declared_number_prints_itself() {
    // Source `let x = 42; console.log(x);` compiles to a program whose
    // execution prints 42 and succeeds.
    let module = compile_source("let x = 42; console.log(x);").unwrap();
    let output = run_main(&module).unwrap();
    assert_eq!(output, vec![42]);
}

#[test]
fn an_addition_function_emits_an_add_instruction() {
    let module = compile_source(
        "function add(x: number, y: number): number { return x + y; }",
    )
    .unwrap();
    let add_fn = module
        .functions
        .iter()
        .find(|f| f.name == "add")
        .expect("the declared function is emitted");
    assert!(add_fn.instructions.contains(&Instruction::Add));
}

#[test]
fn an_undeclared_identifier_fails_the_type_check() {
    match compile_source("console.log(y);") {
        Err(CompileError::Type(TypeError::Undefined(name))) => assert_eq!(name, "y"),
        other => panic!("expected an undefined-identifier failure, got {:?}", other),
    }
}

#[test]
fn a_syntax_error_fails_parsing() {
    assert!(matches!(
        compile_source("let = ;"),
        Err(CompileError::Parse(_))
    ));
}

#[test]
fn arithmetic_on_bindings_runs() {
    let module = compile_source("let a = 40; let b = 2; console.log(a + b);").unwrap();
    let output = run_main(&module).unwrap();
    assert_eq!(output, vec![42]);
}

#[test]
fn subtraction_wraps_like_the_machine() {
    let module = compile_source("let a = 1; let b = 2; console.log(a - b);").unwrap();
    let output = run_main(&module).unwrap();
    assert_eq!(output, vec![u64::MAX]);
}

#[test]
fn an_unknown_callee_fails_the_type_check() {
    assert!(matches!(
        compile_source("foo(1);"),
        Err(CompileError::Type(TypeError::UnsupportedConstruct(_)))
    ));
}

#[test]
fn a_nested_function_declaration_is_unsupported_by_codegen() {
    // The checker accepts a function declared inside a body, but the
    // generator only emits functions at the top level.
    let source = "function f(): number { function g() { return 1; } return 1; }";
    assert!(matches!(
        compile_source(source),
        Err(CompileError::Codegen(tsc_core::codegen::CodegenError::Unsupported))
    ));
}

#[test]
fn program_order_is_emission_order() {
    let module = compile_source("let x = 1; console.log(x); let y = 2; console.log(y);")
        .unwrap();
    let output = run_main(&module).unwrap();
    assert_eq!(output, vec![1, 2]);
}
