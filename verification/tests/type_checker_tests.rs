use tsc_core::lexer::Lexer;
use tsc_core::parser::{AstNode, Parser};
use tsc_core::type_checker::{TypeChecker, TypeError};

#[test]
fn test_type_checking() {
    let source = r#"
        function add(x: number, y: number): number {
            return x + y;
        }
    "#;

    let lexer = Lexer::new(source.to_string());
    let mut parser = Parser::new(lexer);
    let ast = parser.parse_program().unwrap();

    let mut type_checker = TypeChecker::new();
    assert!(type_checker.check(&ast).is_ok());
}

#[test]
fn mixing_number_and_boolean_operands_is_a_mismatch() {
    // A binding annotated boolean, then used as an operand next to a number.
    let ast = AstNode::Program(vec![
        AstNode::VarDecl {
            name: "b".to_string(),
            init: None,
            typ: Some("boolean".to_string()),
        },
        AstNode::ExpressionStmt(Box::new(AstNode::BinaryExpr {
            left: Box::new(AstNode::NumberLiteral(1)),
            operator: tsc_core::parser::BinaryOp::Plus,
            right: Box::new(AstNode::Identifier("b".to_string())),
        })),
    ]);
    let mut checker = TypeChecker::new();
    assert!(matches!(checker.check(&ast), Err(TypeError::Mismatch)));
}

#[test]
fn undeclared_identifier_is_undefined() {
    let source = "console.log(y);";
    let lexer = Lexer::new(source.to_string());
    let mut parser = Parser::new(lexer);
    let ast = parser.parse_program().unwrap();
    let mut checker = TypeChecker::new();
    match checker.check(&ast) {
        Err(TypeError::Undefined(name)) => assert_eq!(name, "y"),
        other => panic!("expected an undefined-identifier failure, got {:?}", other),
    }
}

#[test]
fn unknown_function_is_unsupported() {
    let source = "foo(1);";
    let lexer = Lexer::new(source.to_string());
    let mut parser = Parser::new(lexer);
    let ast = parser.parse_program().unwrap();
    let mut checker = TypeChecker::new();
    assert!(matches!(
        checker.check(&ast),
        Err(TypeError::UnsupportedConstruct(_))
    ));
}

#[test]
fn intrinsic_call_needs_an_argument() {
    let source = "console.log();";
    let lexer = Lexer::new(source.to_string());
    let mut parser = Parser::new(lexer);
    let ast = parser.parse_program().unwrap();
    let mut checker = TypeChecker::new();
    assert!(matches!(
        checker.check(&ast),
        Err(TypeError::UnsupportedConstruct(_))
    ));
}

#[test]
fn declared_binding_checks_and_shadows() {
    let source = "let x = 1; let x = 2; console.log(x);";
    let lexer = Lexer::new(source.to_string());
    let mut parser = Parser::new(lexer);
    let ast = parser.parse_program().unwrap();
    let mut checker = TypeChecker::new();
    assert!(checker.check(&ast).is_ok());
}
