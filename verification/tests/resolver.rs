use kas::errors::{Error, ErrorKind};
use kas::pipeline::front_end;
use kas::resolver::Resolver;
use kas::scope::{Symbol, SymbolTable, Type};

/// Lex, parse and resolve; the parse must be clean so that the resolver's
/// own diagnostics stand alone.
fn resolve(src: &str) -> Vec<Error> {
    let (stmts, parse_errors) = front_end(src.as_bytes().to_vec());
    assert!(parse_errors.is_empty(), "the source should parse cleanly");
    let mut resolver = Resolver::new();
    resolver.resolve(&stmts)
}

#[test]
fn scenario_annotated_declaration_is_clean() {
    // symbol x has type Integer, immutable
    let errors = resolve("let x: int = 5;");
    assert!(errors.is_empty());
}

#[test]
fn scenario_annotated_declaration_yields_an_immutable_integer() {
    // the declared symbol behaves as an Integer ...
    let errors = resolve("let x: int = 5; let y: int = x;");
    assert!(errors.is_empty());
    // ... and as a constant
    let errors = resolve("let x: int = 5; x = 6;");
    assert_eq!(errors.len(), 1);
    assert_eq!(errors[0].kind, ErrorKind::AssignToConstant);
}

#[test]
fn scenario_annotation_mismatch_points_at_the_initializer() {
    let errors = resolve("let x: int = 5.0;");
    assert_eq!(errors.len(), 1);
    assert_eq!(errors[0].kind, ErrorKind::TypeMismatch);
    // the span references the initializer `5.0`
    assert_eq!(errors[0].span.start, 13);
    assert_eq!(errors[0].span.end, 16);
    assert!(errors[0].abort);
}

#[test]
fn scenario_assigning_to_a_mutable_of_matching_type_never_raises() {
    let errors = resolve("mut x = 1; x = 2;");
    assert!(errors.is_empty());
}

#[test]
fn scenario_assigning_to_a_constant_always_raises() {
    let errors = resolve("let x = 1; x = 2;");
    assert_eq!(errors.len(), 1);
    assert_eq!(errors[0].kind, ErrorKind::AssignToConstant);
}

#[test]
fn scenario_assigning_to_an_undeclared_name_raises() {
    let errors = resolve("y = 2;");
    assert_eq!(errors.len(), 1);
    assert_eq!(errors[0].kind, ErrorKind::UnknownIdentifier);
}

#[test]
fn reading_an_undeclared_name_raises() {
    let errors = resolve("let x = y;");
    assert_eq!(errors.len(), 1);
    assert_eq!(errors[0].kind, ErrorKind::UnknownIdentifier);
}

#[test]
fn equal_types_keep_their_type_in_binary_operations() {
    // 1 - 2 is Integer, so an int annotation downstream is satisfied
    let errors = resolve("let a = 1 - 2; let b: int = a;");
    assert!(errors.is_empty());
}

#[test]
fn integer_float_pairs_widen_to_float_both_ways() {
    let errors = resolve("let a = 1 - 2.0; let b: float = a;");
    assert!(errors.is_empty());
    let errors = resolve("let a = 2.0 - 1; let b: float = a;");
    assert!(errors.is_empty());
}

#[test]
fn other_type_pairs_are_rejected_in_binary_operations() {
    let errors = resolve("let a = 1 - \"s\";");
    assert_eq!(errors.len(), 1);
    assert_eq!(errors[0].kind, ErrorKind::TypeMismatch);
    let errors = resolve("let a = true - 1;");
    assert_eq!(errors.len(), 1);
    assert_eq!(errors[0].kind, ErrorKind::TypeMismatch);
}

#[test]
fn assignment_type_mismatch_is_rejected_without_coercion() {
    // no coercion on assignment, even integer to float
    let errors = resolve("mut x = 1.0; x = 2;");
    assert_eq!(errors.len(), 1);
    assert_eq!(errors[0].kind, ErrorKind::TypeMismatch);
}

#[test]
fn a_declared_name_keeps_its_type_inside_a_function_body() {
    // reading `x` in the inner scope yields the initializer's type
    let errors = resolve("let x = 1\nfunction f(a: int)\n    mut y = x\n    y = 2\nend");
    assert!(errors.is_empty());
}

#[test]
fn an_inner_declaration_shadows_the_outer_one() {
    // inside the body, x is the float; assigning a float to z is fine
    let errors = resolve("let x = 1\nfunction f()\n    let x = 1.5\n    mut z = x\n    z = 3.0\nend");
    assert!(errors.is_empty());
}

#[test]
fn a_parameter_is_visible_in_its_body_with_its_annotated_type() {
    let errors = resolve("function f(a: int)\n    mut y = a\n    y = 2\nend");
    assert!(errors.is_empty());
}

#[test]
fn resolution_continues_after_a_failed_statement() {
    let errors = resolve("y = 2; let x = 1; x = 3;");
    // both the unknown identifier and the constant assignment are found
    assert_eq!(errors.len(), 2);
    assert_eq!(errors[0].kind, ErrorKind::UnknownIdentifier);
    assert_eq!(errors[1].kind, ErrorKind::AssignToConstant);
}

#[test]
fn typename_table_is_exact() {
    assert_eq!(Type::get_primitive_from_ident(&b"int".to_vec()), Some(Type::Integer));
    assert_eq!(Type::get_primitive_from_ident(&b"float".to_vec()), Some(Type::Float));
    assert_eq!(Type::get_primitive_from_ident(&b"string".to_vec()), Some(Type::Str));
    assert_eq!(Type::get_primitive_from_ident(&b"bool".to_vec()), Some(Type::Boolean));
    assert_eq!(Type::get_primitive_from_ident(&b"nil".to_vec()), None);
    assert_eq!(Type::get_primitive_from_ident(&b"inty".to_vec()), None);
}

#[test]
fn the_scope_stack_shadows_and_restores() {
    let mut table = SymbolTable::new();
    let name = b"x".to_vec();
    table.store_local(&name, SymbolTable::sym(Type::Integer, false));
    table.step_into();
    table.store_local(&name, SymbolTable::sym(Type::Float, true));
    assert_eq!(table.lookup(&name), Some(Symbol { typ: Type::Float, mutable: true }));
    table.step_out();
    assert_eq!(table.lookup(&name), Some(Symbol { typ: Type::Integer, mutable: false }));
    assert_eq!(table.lookup(&b"y".to_vec()), None);
}
