use tsc_core::codegen::{CodeGenerator, CodegenError, Instruction, IrModule};
use tsc_core::interp::{run_instructions, run_main, RunError};
use tsc_core::parser::AstNode;

#[test]
fn adding_with_an_empty_stack_underflows() {
    assert!(matches!(
        run_instructions(&vec![Instruction::Add]),
        Err(RunError::StackUnderflow)
    ));
}

#[test]
fn loading_an_unset_slot_fails() {
    assert!(matches!(
        run_instructions(&vec![Instruction::Load(0)]),
        Err(RunError::UnboundSlot)
    ));
}

#[test]
fn a_module_without_an_entry_function_fails() {
    let module = IrModule { functions: Vec::new() };
    assert!(matches!(run_main(&module), Err(RunError::NoMain)));
}

#[test]
fn stores_and_loads_round_trip() {
    let out = run_instructions(&vec![
        Instruction::Push(7),
        Instruction::Store(3),
        Instruction::Load(3),
        Instruction::Print,
        Instruction::Ret,
    ])
    .unwrap();
    assert_eq!(out, vec![7]);
}

#[test]
fn an_unchecked_identifier_is_a_generator_desynchronization() {
    // After a successful type check this cannot happen; handing the
    // generator an unchecked tree shows the guard.
    let ast = AstNode::Program(vec![AstNode::ExpressionStmt(Box::new(
        AstNode::Identifier("x".to_string()),
    ))]);
    let mut generator = CodeGenerator::new();
    match generator.generate(&ast) {
        Err(CodegenError::UndefinedVariable(name)) => assert_eq!(name, "x"),
        other => panic!("expected an undefined-variable failure, got {:?}", other),
    }
}

#[test]
fn teardown_reclaims_each_binding_once() {
    let ast = AstNode::Program(vec![
        AstNode::VariableDecl {
            name: "x".to_string(),
            initializer: Box::new(AstNode::NumberLiteral(1)),
        },
        AstNode::VariableDecl {
            name: "y".to_string(),
            initializer: Box::new(AstNode::NumberLiteral(2)),
        },
    ]);
    let mut generator = CodeGenerator::new();
    generator.generate(&ast).unwrap();
    let reclaimed = generator.finish();
    assert_eq!(reclaimed, vec!["x".to_string(), "y".to_string()]);
    // A second teardown has nothing left to release.
    assert!(generator.finish().is_empty());
}
