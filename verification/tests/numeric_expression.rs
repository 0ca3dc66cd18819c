use gdeditor::numeric_expression::{parse_numeric_expression, NumConstant, NumExpr};

/// Evaluates a parsed expression tree in `f64`.
fn eval_tree(e: &NumExpr) -> f64 {
    match e {
        NumExpr::Number(lit) => lit.parse().expect("validated literal"),
        NumExpr::Constant(NumConstant::Pi) => std::f64::consts::PI,
        NumExpr::Constant(NumConstant::Tau) => std::f64::consts::TAU,
        NumExpr::Constant(NumConstant::E) => std::f64::consts::E,
        NumExpr::Constant(NumConstant::Inf) => f64::INFINITY,
        NumExpr::Neg(a) => -eval_tree(a),
        NumExpr::Add(a, b) => eval_tree(a) + eval_tree(b),
        NumExpr::Sub(a, b) => eval_tree(a) - eval_tree(b),
        NumExpr::Mul(a, b) => eval_tree(a) * eval_tree(b),
        NumExpr::Div(a, b) => eval_tree(a) / eval_tree(b),
    }
}

fn eval_numeric_expression(input: &str) -> Option<f64> {
    parse_numeric_expression(input).map(|e| eval_tree(&e))
}

#[test]
fn eval_handles_arithmetic_constants_and_invalid() {
    assert_eq!(eval_numeric_expression("1+1"), Some(2.0));
    assert_eq!(eval_numeric_expression("2 * 3 - 4"), Some(2.0));
    assert_eq!(eval_numeric_expression("(3 + 4) / 2"), Some(3.5));
    assert_eq!(eval_numeric_expression("-5"), Some(-5.0));
    assert_eq!(
        eval_numeric_expression("2*PI"),
        Some(2.0 * std::f64::consts::PI)
    );

    // Invalid expressions evaluate to None.
    assert_eq!(eval_numeric_expression("2*"), None);
    assert_eq!(eval_numeric_expression("abc"), None);
    assert_eq!(eval_numeric_expression("1 2"), None);
    assert_eq!(eval_numeric_expression("(1+2"), None);
    assert_eq!(eval_numeric_expression(""), None);
    assert_eq!(eval_numeric_expression("3 !"), None);
}

#[test]
fn expression_precedence_and_associativity() {
    match parse_numeric_expression("1+2*3").unwrap() {
        NumExpr::Add(a, b) => {
            assert!(matches!(*a, NumExpr::Number(ref n) if n == "1"));
            assert!(matches!(*b, NumExpr::Mul(_, _)));
        }
        other => panic!("unexpected tree {other:?}"),
    }
    assert_eq!(eval_numeric_expression("10-4-3"), Some(3.0));
    assert_eq!(eval_numeric_expression("8/4/2"), Some(1.0));
    assert_eq!(eval_numeric_expression("--5"), Some(5.0));
    assert_eq!(eval_numeric_expression("+5"), Some(5.0));
    assert_eq!(eval_numeric_expression("-(2+3)*2"), Some(-10.0));
}

#[test]
fn expression_literals_and_names() {
    assert_eq!(eval_numeric_expression(".5"), Some(0.5));
    assert_eq!(eval_numeric_expression("5."), Some(5.0));
    assert_eq!(eval_numeric_expression("1.2.3"), None);
    assert_eq!(eval_numeric_expression("."), None);
    assert_eq!(eval_numeric_expression("tau"), Some(std::f64::consts::TAU));
    assert_eq!(eval_numeric_expression("e"), Some(std::f64::consts::E));
    assert_eq!(eval_numeric_expression("inf"), Some(f64::INFINITY));
    assert_eq!(eval_numeric_expression("pie"), None);
    assert_eq!(eval_numeric_expression("\u{a0} 2 + 2 \u{3000}"), Some(4.0));
    assert_eq!(eval_numeric_expression("   "), None);
    assert_eq!(eval_numeric_expression("()"), None);
    assert_eq!(eval_numeric_expression("1)"), None);
}
