use kas::ast::{Expr, ExprKind, Operator, Stmt, StmtKind};
use kas::errors::{Error, ErrorKind};
use kas::pipeline::front_end;

fn parse(src: &str) -> (Vec<Stmt>, Vec<Error>) {
    front_end(src.as_bytes().to_vec())
}

fn only_stmt(src: &str) -> Stmt {
    let (mut stmts, errors) = parse(src);
    assert!(errors.is_empty(), "unexpected diagnostics");
    assert_eq!(stmts.len(), 1);
    stmts.remove(0)
}

#[test]
fn variable_declaration_with_annotation() {
    let stmt = only_stmt("let x: int = 5;");
    match stmt.kind {
        StmtKind::Variable { name, mutable, typ, value } => {
            assert_eq!(name, b"x".to_vec());
            assert!(!mutable);
            match typ.expect("annotation should be kept").kind {
                ExprKind::Ident { name } => assert_eq!(name, b"int".to_vec()),
                _ => panic!("the annotation should be an identifier"),
            }
            match value.kind {
                ExprKind::Integer { value } => assert_eq!(value, 5),
                _ => panic!("the initializer should be an integer literal"),
            }
        }
        _ => panic!("expected a variable declaration"),
    }
}

#[test]
fn mut_keyword_sets_the_mutable_flag() {
    let stmt = only_stmt("mut x = 1;");
    match stmt.kind {
        StmtKind::Variable { mutable, typ, .. } => {
            assert!(mutable);
            assert!(typ.is_none());
        }
        _ => panic!("expected a variable declaration"),
    }
}

/// `a - b - c` must parse as `a - (b - c)`: the tree itself is
/// right-associative, not just its rendering.
#[test]
fn subtraction_is_right_associative() {
    let stmt = only_stmt("x = a - b - c;");
    let assign = match stmt.kind {
        StmtKind::Expression { expr } => *expr,
        _ => panic!("expected an expression statement"),
    };
    let (lhs, rhs) = match assign.kind {
        ExprKind::Assignment { assignee, value, op } => {
            assert_eq!(op, Operator::Eq);
            match assignee.kind {
                ExprKind::Ident { ref name } => assert_eq!(*name, b"x".to_vec()),
                _ => panic!("the assignee should be an identifier"),
            }
            match value.kind {
                ExprKind::Binary { lhs, rhs, op } => {
                    assert_eq!(op, Operator::Sub);
                    (*lhs, *rhs)
                }
                _ => panic!("the value should be a binary expression"),
            }
        }
        _ => panic!("the statement should wrap an assignment"),
    };
    // left operand is the bare `a` ...
    match lhs.kind {
        ExprKind::Ident { name } => assert_eq!(name, b"a".to_vec()),
        _ => panic!("a - (b - c): the left operand must be `a`, not a grouped tree"),
    }
    // ... and the right operand is the grouped `b - c`
    match rhs.kind {
        ExprKind::Binary { lhs, rhs, op } => {
            assert_eq!(op, Operator::Sub);
            match lhs.kind {
                ExprKind::Ident { name } => assert_eq!(name, b"b".to_vec()),
                _ => panic!("the inner left operand must be `b`"),
            }
            match rhs.kind {
                ExprKind::Ident { name } => assert_eq!(name, b"c".to_vec()),
                _ => panic!("the inner right operand must be `c`"),
            }
        }
        _ => panic!("a - (b - c): the right operand must be the grouped subtraction"),
    }
}

#[test]
fn assignment_is_right_associative_too() {
    let stmt = only_stmt("x = y = 1;");
    let assign = match stmt.kind {
        StmtKind::Expression { expr } => *expr,
        _ => panic!("expected an expression statement"),
    };
    match assign.kind {
        ExprKind::Assignment { value, .. } => {
            assert!(matches!(value.kind, ExprKind::Assignment { .. }));
        }
        _ => panic!("expected an assignment"),
    }
}

#[test]
fn a_bare_expression_statement_is_rejected() {
    let (stmts, errors) = parse("a - b;");
    assert!(stmts.is_empty());
    assert_eq!(errors.len(), 1);
    assert_eq!(errors[0].kind, ErrorKind::SyntaxError);
    assert_eq!(errors[0].msg, "expressions must be meaningful to exist on their own");
}

#[test]
fn function_declaration_with_params_return_type_and_body() {
    let stmt = only_stmt("function add(a: int, b: int) -> int\n    x = 1\nend");
    match stmt.kind {
        StmtKind::Function { name, ret, params, body } => {
            assert_eq!(name, b"add".to_vec());
            assert!(ret.is_some());
            assert_eq!(params.len(), 2);
            match &params[0].kind {
                ExprKind::Parameter { name, ty } => {
                    assert_eq!(*name, b"a".to_vec());
                    assert!(matches!(ty.kind, ExprKind::Ident { .. }));
                }
                _ => panic!("expected a parameter"),
            }
            assert_eq!(body.len(), 1);
            assert!(matches!(body[0].kind, StmtKind::Expression { .. }));
        }
        _ => panic!("expected a function declaration"),
    }
}

#[test]
fn a_body_missing_its_end_is_reported_but_still_returned() {
    let (stmts, errors) = parse("function f()\n    x = 1\n");
    assert_eq!(stmts.len(), 1);
    match &stmts[0].kind {
        StmtKind::Function { body, .. } => assert_eq!(body.len(), 1),
        _ => panic!("expected a function declaration"),
    }
    assert_eq!(errors.len(), 1);
    assert_eq!(errors[0].kind, ErrorKind::SyntaxError);
    assert_eq!(errors[0].msg, "block is missing its closing keyword");
}

#[test]
fn one_malformed_statement_does_not_stop_the_next() {
    let (stmts, errors) = parse("let = 5\nmut y = 1\n");
    assert_eq!(stmts.len(), 1);
    assert!(matches!(stmts[0].kind, StmtKind::Variable { .. }));
    assert_eq!(errors.len(), 1);
    assert_eq!(errors[0].kind, ErrorKind::SyntaxError);
}

#[test]
fn an_overflowing_integer_literal_is_a_parse_error() {
    let (stmts, errors) = parse("let x = 99999999999;");
    assert!(stmts.is_empty());
    assert_eq!(errors.len(), 1);
    assert_eq!(errors[0].kind, ErrorKind::ParseError);
    assert_eq!(errors[0].msg, "error parsing integer literal");
}

#[test]
fn a_statement_needs_its_terminator() {
    let (stmts, errors) = parse("let x = 1 let y = 2;");
    assert!(stmts.len() <= 1);
    assert!(errors.iter().any(|e| e.msg == "expected ';' or a new line to complete the statement"));
}

#[test]
fn calls_parse_with_comma_separated_arguments() {
    let stmt = only_stmt("x = f(1, y);");
    let assign = match stmt.kind {
        StmtKind::Expression { expr } => *expr,
        _ => panic!("expected an expression statement"),
    };
    match assign.kind {
        ExprKind::Assignment { value, .. } => match value.kind {
            ExprKind::Call { callee, args } => {
                assert!(matches!(callee.kind, ExprKind::Ident { .. }));
                assert_eq!(args.len(), 2);
            }
            _ => panic!("expected a call"),
        },
        _ => panic!("expected an assignment"),
    }
}

#[test]
fn underscores_are_stripped_from_numeric_literal_values() {
    let stmt = only_stmt("let x = 1_000;");
    match stmt.kind {
        StmtKind::Variable { value, .. } => match value.kind {
            ExprKind::Integer { value } => assert_eq!(value, 1000),
            _ => panic!("expected an integer literal"),
        },
        _ => panic!("expected a variable declaration"),
    }
}

#[test]
fn spans_locate_the_whole_statement() {
    let stmt = only_stmt("let x = 5;");
    assert_eq!(stmt.span.start, 0);
    // the span runs from the keyword through the initializer
    assert_eq!(stmt.span.end, 9);
}

fn parse_int(src: &[u8]) -> Option<i32> {
    kas::parser::parse_int_lexeme(&src.to_vec())
}

#[test]
fn integer_lexeme_parsing_is_exact() {
    assert_eq!(parse_int(b"0"), Some(0));
    assert_eq!(parse_int(b"1_000"), Some(1000));
    assert_eq!(parse_int(b"2147483647"), Some(i32::MAX));
    assert_eq!(parse_int(b"2147483648"), None);
    assert_eq!(parse_int(b""), None);
    assert_eq!(parse_int(b"_"), None);
}
