use cairo_defs::bigint::Integer;
use cairo_defs::consteval_int::{
    compute_constant_expr, divides_by_zero_exec, extract_consteval_macro_expression,
    macro_divides_by_zero_exec, BinaryOperator, ConstevalIntMacro,
    Expr, ExprInlineMacro, ExprList, UnaryOperator, WrappedExprList,
};
use cairo_defs::plugin::PluginDiagnostic;
use num_bigint::BigInt;

fn lit(v: i64) -> Expr {
    Expr::Literal { value: Some(Integer::from_signed_bytes_le(v.to_le_bytes().to_vec())), stable_ptr: 0 }
}

fn big_lit(text: &str) -> Expr {
    let v: BigInt = text.parse().unwrap();
    Expr::Literal { value: Some(Integer::from_signed_bytes_le(v.to_signed_bytes_le())), stable_ptr: 0 }
}

fn bin(op: BinaryOperator, lhs: Expr, rhs: Expr, ptr: u64) -> Expr {
    Expr::Binary { op, lhs: Box::new(lhs), rhs: Box::new(rhs), stable_ptr: ptr }
}

fn neg(e: Expr, ptr: u64) -> Expr {
    Expr::Unary { op: UnaryOperator::Minus, expr: Box::new(e), stable_ptr: ptr }
}

fn value(r: &Option<Integer>) -> Option<BigInt> {
    r.as_ref().map(|x| BigInt::from_signed_bytes_le(x.signed_bytes_le()))
}

fn eval(e: &Expr) -> (Option<BigInt>, Vec<(u64, String)>) {
    let mut diagnostics: Vec<PluginDiagnostic> = vec![];
    let r = compute_constant_expr(e, &mut diagnostics);
    (value(&r), diagnostics.into_iter().map(|d| (d.stable_ptr, d.message)).collect())
}

fn call(args: Vec<Expr>) -> ExprInlineMacro {
    ExprInlineMacro {
        path: "consteval_int".to_string(),
        arguments: WrappedExprList::ParenthesizedExprList(ExprList { elements: args, stable_ptr: 7 }),
        stable_ptr: 9,
    }
}

#[test]
fn arithmetic_is_exact() {
    assert_eq!(eval(&bin(BinaryOperator::Plus, lit(2), lit(3), 1)).0, Some(BigInt::from(5)));
    assert_eq!(eval(&bin(BinaryOperator::Minus, lit(2), lit(3), 1)).0, Some(BigInt::from(-1)));
    assert_eq!(eval(&bin(BinaryOperator::Mul, lit(-4), lit(3), 1)).0, Some(BigInt::from(-12)));
    let big = bin(BinaryOperator::Mul, lit(i64::MAX), lit(i64::MAX), 1);
    assert_eq!(eval(&big).0, Some(BigInt::from(i64::MAX) * BigInt::from(i64::MAX)));
    let huge = bin(BinaryOperator::Plus, big_lit("340282366920938463463374607431768211456"), lit(1), 1);
    assert_eq!(eval(&huge).0, Some("340282366920938463463374607431768211457".parse().unwrap()));
}

#[test]
fn division_rounds_toward_zero() {
    assert_eq!(eval(&bin(BinaryOperator::Div, lit(-7), lit(2), 1)).0, Some(BigInt::from(-3)));
    assert_eq!(eval(&bin(BinaryOperator::Div, lit(7), lit(-2), 1)).0, Some(BigInt::from(-3)));
    assert_eq!(eval(&bin(BinaryOperator::Mod, lit(-7), lit(2), 1)).0, Some(BigInt::from(-1)));
    assert_eq!(eval(&bin(BinaryOperator::Mod, lit(7), lit(-2), 1)).0, Some(BigInt::from(1)));
}

#[test]
fn bitwise_on_twos_complement() {
    assert_eq!(eval(&bin(BinaryOperator::And, lit(12), lit(10), 1)).0, Some(BigInt::from(8)));
    assert_eq!(eval(&bin(BinaryOperator::Or, lit(12), lit(10), 1)).0, Some(BigInt::from(14)));
    assert_eq!(eval(&bin(BinaryOperator::Xor, lit(12), lit(10), 1)).0, Some(BigInt::from(6)));
    assert_eq!(eval(&bin(BinaryOperator::And, lit(-1), lit(10), 1)).0, Some(BigInt::from(10)));
    assert_eq!(eval(&bin(BinaryOperator::Or, lit(-8), lit(3), 1)).0, Some(BigInt::from(-5)));
    assert_eq!(eval(&bin(BinaryOperator::Xor, lit(-1), lit(5), 1)).0, Some(BigInt::from(-6)));
}

#[test]
fn unary_minus_and_parentheses() {
    let e = neg(Expr::Parenthesized(Box::new(bin(BinaryOperator::Plus, lit(1), lit(2), 1))), 2);
    assert_eq!(eval(&e), (Some(BigInt::from(-3)), vec![]));
}

#[test]
fn unsupported_binary_operator() {
    let e = bin(BinaryOperator::Other, lit(1), lit(2), 11);
    assert_eq!(
        eval(&e),
        (None, vec![(11, "Unsupported binary operator in consteval_int macro".to_string())])
    );
}

#[test]
fn unsupported_unary_operator() {
    let e = Expr::Unary { op: UnaryOperator::Other, expr: Box::new(lit(1)), stable_ptr: 12 };
    assert_eq!(
        eval(&e),
        (None, vec![(12, "Unsupported unary operator in consteval_int macro".to_string())])
    );
}

#[test]
fn unsupported_expression_stops_evaluation() {
    // The left operand fails, so the right one is never evaluated.
    let e = bin(BinaryOperator::Plus, Expr::Unsupported(13), Expr::Unsupported(14), 1);
    assert_eq!(
        eval(&e),
        (None, vec![(13, "Unsupported expression in consteval_int macro".to_string())])
    );
}

#[test]
fn literal_without_value_is_reported() {
    let e = bin(BinaryOperator::Plus, Expr::Literal { value: None, stable_ptr: 21 }, lit(1), 1);
    assert_eq!(
        eval(&e),
        (None, vec![(21, "Invalid numeric literal in consteval_int macro".to_string())])
    );
}

#[test]
fn extract_needs_one_argument() {
    let mut diagnostics = vec![];
    let list = ExprList { elements: vec![lit(1), lit(2)], stable_ptr: 5 };
    assert!(extract_consteval_macro_expression(&list, &mut diagnostics).is_none());
    assert_eq!(diagnostics.len(), 1);
    assert_eq!(diagnostics[0].stable_ptr, 5);
    assert_eq!(diagnostics[0].message, "consteval_int macro must have a single unnamed argument.");

    let mut diagnostics = vec![];
    let list = ExprList { elements: vec![lit(42)], stable_ptr: 5 };
    let e = extract_consteval_macro_expression(&list, &mut diagnostics).unwrap();
    assert!(diagnostics.is_empty());
    assert_eq!(eval(&e).0, Some(BigInt::from(42)));
}

#[test]
fn macro_expands_to_decimal_text() {
    let m = ConstevalIntMacro;
    let r = m.generate_code(&call(vec![bin(BinaryOperator::Minus, lit(3), lit(10), 1)]));
    assert_eq!(r.code, Some("-7".to_string()));
    assert!(r.diagnostics.is_empty());

    let r = m.generate_code(&call(vec![bin(BinaryOperator::Mul, lit(1 << 40), lit(1 << 40), 1)]));
    assert_eq!(r.code, Some("1208925819614629174706176".to_string()));
    let r = m.generate_code(&call(vec![lit(0)]));
    assert_eq!(r.code, Some("0".to_string()));
}

#[test]
fn macro_with_no_argument() {
    let r = ConstevalIntMacro.generate_code(&call(vec![]));
    assert_eq!(r.code, None);
    assert_eq!(r.diagnostics.len(), 1);
    assert_eq!(r.diagnostics[0].stable_ptr, 7);
    assert_eq!(r.diagnostics[0].message, "consteval_int macro must have a single unnamed argument.");
}

#[test]
fn macro_with_brackets() {
    let syntax = ExprInlineMacro {
        path: "consteval_int".to_string(),
        arguments: WrappedExprList::BracketedExprList(ExprList { elements: vec![lit(1)], stable_ptr: 7 }),
        stable_ptr: 9,
    };
    let r = ConstevalIntMacro.generate_code(&syntax);
    assert_eq!(r.code, None);
    assert_eq!(r.diagnostics.len(), 1);
    assert_eq!(r.diagnostics[0].stable_ptr, 9);
    assert_eq!(r.diagnostics[0].message, "Macro `consteval_int` does not support this bracket type.");
}

#[test]
fn macro_reports_one_diagnostic_on_failure() {
    let r = ConstevalIntMacro.generate_code(&call(vec![bin(
        BinaryOperator::Plus,
        Expr::Unsupported(3),
        bin(BinaryOperator::Other, lit(1), lit(1), 4),
        5,
    )]));
    assert_eq!(r.code, None);
    assert_eq!(r.diagnostics.len(), 1);
    assert_eq!(r.diagnostics[0].stable_ptr, 3);
}

#[test]
fn macro_without_brackets() {
    let syntax = ExprInlineMacro {
        path: "consteval_int".to_string(),
        arguments: WrappedExprList::Missing,
        stable_ptr: 9,
    };
    let r = ConstevalIntMacro.generate_code(&syntax);
    assert_eq!(r.code, None);
    assert_eq!(r.diagnostics.len(), 1);
    assert_eq!(r.diagnostics[0].stable_ptr, 9);
    assert_eq!(r.diagnostics[0].message, "Macro `consteval_int` does not support this bracket type.");
}

#[test]
fn division_by_zero_is_detected() {
    let zero = bin(BinaryOperator::Minus, lit(1), lit(1), 1);
    assert!(divides_by_zero_exec(&bin(BinaryOperator::Div, lit(1), lit(0), 2)));
    assert!(divides_by_zero_exec(&bin(BinaryOperator::Mod, lit(7), zero, 2)));
    assert!(divides_by_zero_exec(&neg(bin(BinaryOperator::Div, lit(-3), lit(0), 2), 3)));
    assert!(!divides_by_zero_exec(&bin(BinaryOperator::Div, lit(1), lit(2), 2)));
    assert!(!divides_by_zero_exec(&bin(BinaryOperator::Mul, lit(5), lit(0), 2)));
    // Evaluation stops at an unsupported left operand, before the division.
    assert!(!divides_by_zero_exec(&bin(
        BinaryOperator::Div,
        bin(BinaryOperator::Other, lit(1), lit(1), 4),
        lit(0),
        2
    )));
    assert!(macro_divides_by_zero_exec(&call(vec![bin(BinaryOperator::Div, lit(1), lit(0), 2)])));
    assert!(!macro_divides_by_zero_exec(&call(vec![lit(1), bin(BinaryOperator::Div, lit(1), lit(0), 2)])));
}
