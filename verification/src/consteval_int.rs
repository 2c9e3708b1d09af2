//! The `consteval_int!` inline macro: evaluates an integer expression at compile time,
//! with integers of any size, and replaces the macro call by the value's decimal text.

use vstd::prelude::*;
use crate::bigint::{
    Integer, trunc_div, trunc_rem, int_bitand, int_bitor, int_bitxor, integer_add, integer_sub,
    integer_mul, integer_div, integer_rem, integer_bitand, integer_bitor, integer_bitxor,
    integer_neg, integer_to_string, integer_is_zero, decimal_text,
};
use crate::plugin::{
    SyntaxStablePtrId, PluginDiagnostic, InlinePluginResult, diagnostics_view, push_diagnostic,
};

verus! {

/// The binary operators of the expression syntax; those that constant evaluation does
/// not support are `Other`.
#[derive(PartialEq, Eq, Structural, Clone, Copy, Debug)]
pub enum BinaryOperator {
    Plus,
    Minus,
    Mul,
    Div,
    Mod,
    And,
    Or,
    Xor,
    Other,
}

/// The unary operators of the expression syntax; those that constant evaluation does not
/// support are `Other`.
#[derive(PartialEq, Eq, Structural, Clone, Copy, Debug)]
pub enum UnaryOperator {
    Minus,
    Other,
}

/// An expression, as far as constant evaluation reads it.
pub enum Expr {
    /// A number literal, with its numeric value where the literal has one.
    Literal { value: Option<Integer>, stable_ptr: SyntaxStablePtrId },
    Binary { op: BinaryOperator, lhs: Box<Expr>, rhs: Box<Expr>, stable_ptr: SyntaxStablePtrId },
    Unary { op: UnaryOperator, expr: Box<Expr>, stable_ptr: SyntaxStablePtrId },
    Parenthesized(Box<Expr>),
    /// Any other kind of expression.
    Unsupported(SyntaxStablePtrId),
}

/// The mathematical content of an expression.
pub enum ExprModel {
    Literal { value: Option<int>, stable_ptr: SyntaxStablePtrId },
    Binary { op: BinaryOperator, lhs: Box<ExprModel>, rhs: Box<ExprModel>, stable_ptr: SyntaxStablePtrId },
    Unary { op: UnaryOperator, expr: Box<ExprModel>, stable_ptr: SyntaxStablePtrId },
    Parenthesized(Box<ExprModel>),
    Unsupported(SyntaxStablePtrId),
}

/// The value of an optional integer.
pub open spec fn option_value(v: Option<Integer>) -> Option<int> {
    match v {
        Some(x) => Some(x@),
        None => None,
    }
}

/// The mathematical content of an expression.
pub open spec fn expr_model(e: Expr) -> ExprModel
    decreases e,
{
    match e {
        Expr::Literal { value, stable_ptr } => ExprModel::Literal { value: option_value(value), stable_ptr },
        Expr::Binary { op, lhs, rhs, stable_ptr } => ExprModel::Binary {
            op,
            lhs: Box::new(expr_model(*lhs)),
            rhs: Box::new(expr_model(*rhs)),
            stable_ptr,
        },
        Expr::Unary { op, expr, stable_ptr } => ExprModel::Unary {
            op,
            expr: Box::new(expr_model(*expr)),
            stable_ptr,
        },
        Expr::Parenthesized(inner) => ExprModel::Parenthesized(Box::new(expr_model(*inner))),
        Expr::Unsupported(p) => ExprModel::Unsupported(p),
    }
}

impl View for Expr {
    type V = ExprModel;

    open spec fn view(&self) -> ExprModel {
        expr_model(*self)
    }
}

impl Clone for Expr {
    fn clone(&self) -> (r: Self)
        ensures
            r@ == self@,
        decreases self,
    {
        match self {
            Expr::Literal { value, stable_ptr } => {
                let c = match value {
                    Some(x) => Some(x.clone()),
                    None => None,
                };
                Expr::Literal { value: c, stable_ptr: *stable_ptr }
            },
            Expr::Binary { op, lhs, rhs, stable_ptr } => {
                let l = (**lhs).clone();
                let r = (**rhs).clone();
                Expr::Binary { op: *op, lhs: Box::new(l), rhs: Box::new(r), stable_ptr: *stable_ptr }
            },
            Expr::Unary { op, expr, stable_ptr } => {
                let e = (**expr).clone();
                Expr::Unary { op: *op, expr: Box::new(e), stable_ptr: *stable_ptr }
            },
            Expr::Parenthesized(inner) => {
                let e = (**inner).clone();
                Expr::Parenthesized(Box::new(e))
            },
            Expr::Unsupported(p) => Expr::Unsupported(*p),
        }
    }
}

/// The message reported for a number literal that has no numeric value.
pub open spec fn invalid_literal_message() -> Seq<char> {
    "Invalid numeric literal in consteval_int macro"@
}

/// The message reported for a binary operator that constant evaluation does not support.
pub open spec fn unsupported_binary_message() -> Seq<char> {
    "Unsupported binary operator in consteval_int macro"@
}

/// The message reported for a unary operator that constant evaluation does not support.
pub open spec fn unsupported_unary_message() -> Seq<char> {
    "Unsupported unary operator in consteval_int macro"@
}

/// The message reported for a kind of expression that constant evaluation does not support.
pub open spec fn unsupported_expression_message() -> Seq<char> {
    "Unsupported expression in consteval_int macro"@
}

/// The message reported for a `consteval_int!` call without exactly one argument.
pub open spec fn single_argument_message() -> Seq<char> {
    "consteval_int macro must have a single unnamed argument."@
}

/// The value of a supported binary operator on two integers.
pub open spec fn apply_binary(op: BinaryOperator, l: int, r: int) -> int {
    match op {
        BinaryOperator::Plus => l + r,
        BinaryOperator::Minus => l - r,
        BinaryOperator::Mul => l * r,
        BinaryOperator::Div => trunc_div(l, r),
        BinaryOperator::Mod => trunc_rem(l, r),
        BinaryOperator::And => int_bitand(l, r),
        BinaryOperator::Or => int_bitor(l, r),
        BinaryOperator::Xor => int_bitxor(l, r),
        BinaryOperator::Other => 0,
    }
}

/// Constant evaluation of an expression: its value, or none, and the diagnostics it
/// reports. Operands are evaluated left to right, and evaluation stops at the first
/// operand that has no value.
pub open spec fn eval(e: ExprModel) -> (Option<int>, Seq<(SyntaxStablePtrId, Seq<char>)>)
    decreases e,
{
    match e {
        ExprModel::Literal { value, stable_ptr } => match value {
            Some(v) => (Some(v), seq![]),
            None => (None, seq![(stable_ptr, invalid_literal_message())]),
        },
        ExprModel::Binary { op, lhs, rhs, stable_ptr } => {
            if op == BinaryOperator::Other {
                (None, seq![(stable_ptr, unsupported_binary_message())])
            } else {
                let (lv, ld) = eval(*lhs);
                match lv {
                    None => (None, ld),
                    Some(l) => {
                        let (rv, rd) = eval(*rhs);
                        match rv {
                            None => (None, ld + rd),
                            Some(r) => (Some(apply_binary(op, l, r)), ld + rd),
                        }
                    },
                }
            }
        },
        ExprModel::Unary { op, expr, stable_ptr } => {
            if op == UnaryOperator::Minus {
                let (v, d) = eval(*expr);
                match v {
                    None => (None, d),
                    Some(x) => (Some(-x), d),
                }
            } else {
                (None, seq![(stable_ptr, unsupported_unary_message())])
            }
        },
        ExprModel::Parenthesized(inner) => eval(*inner),
        ExprModel::Unsupported(p) => (None, seq![(p, unsupported_expression_message())]),
    }
}

/// Whether constant evaluation of the expression reaches a division or remainder by zero.
pub open spec fn divides_by_zero(e: ExprModel) -> bool
    decreases e,
{
    match e {
        ExprModel::Binary { op, lhs, rhs, stable_ptr } => {
            &&& op != BinaryOperator::Other
            &&& {
                ||| divides_by_zero(*lhs)
                ||| {
                    &&& eval(*lhs).0 is Some
                    &&& {
                        ||| divides_by_zero(*rhs)
                        ||| (eval(*rhs).0 == Some(0int) && (op == BinaryOperator::Div || op
                            == BinaryOperator::Mod))
                    }
                }
            }
        },
        ExprModel::Unary { op, expr, stable_ptr } => op == UnaryOperator::Minus && divides_by_zero(*expr),
        ExprModel::Parenthesized(inner) => divides_by_zero(*inner),
        _ => false,
    }
}

/// Evaluates an expression as constant evaluation does, but stops with `None` where it
/// would divide by zero; otherwise gives the value that evaluation gives.
fn value_unless_division_by_zero(e: &Expr) -> (r: Option<Option<Integer>>)
    ensures
        r is None <==> divides_by_zero(e@),
        r matches Some(v) ==> option_value(v) == eval(e@).0,
    decreases e,
{
    match e {
        Expr::Literal { value, stable_ptr } => match value {
            Some(x) => Some(Some(x.clone())),
            None => Some(None),
        },
        Expr::Binary { op, lhs, rhs, stable_ptr } => {
            if *op == BinaryOperator::Other {
                return Some(None);
            }
            let l = match value_unless_division_by_zero(lhs) {
                None => return None,
                Some(None) => return Some(None),
                Some(Some(l)) => l,
            };
            let r = match value_unless_division_by_zero(rhs) {
                None => return None,
                Some(None) => return Some(None),
                Some(Some(r)) => r,
            };
            match op {
                BinaryOperator::Plus => Some(Some(integer_add(&l, &r))),
                BinaryOperator::Minus => Some(Some(integer_sub(&l, &r))),
                BinaryOperator::Mul => Some(Some(integer_mul(&l, &r))),
                BinaryOperator::Div => if integer_is_zero(&r) {
                    None
                } else {
                    Some(Some(integer_div(&l, &r)))
                },
                BinaryOperator::Mod => if integer_is_zero(&r) {
                    None
                } else {
                    Some(Some(integer_rem(&l, &r)))
                },
                BinaryOperator::And => Some(Some(integer_bitand(&l, &r))),
                BinaryOperator::Or => Some(Some(integer_bitor(&l, &r))),
                BinaryOperator::Xor => Some(Some(integer_bitxor(&l, &r))),
                BinaryOperator::Other => Some(None),
            }
        },
        Expr::Unary { op, expr, stable_ptr } => {
            if *op == UnaryOperator::Minus {
                match value_unless_division_by_zero(expr) {
                    None => None,
                    Some(Some(x)) => Some(Some(integer_neg(&x))),
                    Some(None) => Some(None),
                }
            } else {
                Some(None)
            }
        },
        Expr::Parenthesized(inner) => value_unless_division_by_zero(inner),
        Expr::Unsupported(p) => Some(None),
    }
}

/// Whether constant evaluation of the expression reaches a division or remainder by zero.
pub fn divides_by_zero_exec(e: &Expr) -> (b: bool)
    ensures
        b == divides_by_zero(e@),
{
    value_unless_division_by_zero(e).is_none()
}

/// Constant evaluation gives a value or fails with diagnostics: it reports no diagnostic
/// where it gives a value, and exactly one where it fails.
pub proof fn lemma_value_or_one_diagnostic(e: ExprModel)
    ensures
        eval(e).0 is Some ==> eval(e).1.len() == 0,
        eval(e).0 is None ==> eval(e).1.len() == 1,
    decreases e,
{
    match e {
        ExprModel::Binary { op, lhs, rhs, stable_ptr } => {
            lemma_value_or_one_diagnostic(*lhs);
            lemma_value_or_one_diagnostic(*rhs);
        },
        ExprModel::Unary { op, expr, stable_ptr } => {
            lemma_value_or_one_diagnostic(*expr);
        },
        ExprModel::Parenthesized(inner) => {
            lemma_value_or_one_diagnostic(*inner);
        },
        _ => {},
    }
}

/// Parentheses do not change what an expression evaluates to, and negation negates its
/// value, with the same diagnostics.
pub proof fn lemma_eval_parenthesized_negated(e: ExprModel, stable_ptr: SyntaxStablePtrId)
    ensures
        eval(ExprModel::Parenthesized(Box::new(e))) == eval(e),
        eval(ExprModel::Unary { op: UnaryOperator::Minus, expr: Box::new(e), stable_ptr }) == (
            match eval(e).0 {
                Some(v) => Some(-v),
                None => None::<int>,
            },
            eval(e).1,
        ),
{
}

/// Computes the value of an integer expression, with integers of any size, or reports
/// why it cannot.
pub fn compute_constant_expr(value: &Expr, diagnostics: &mut Vec<PluginDiagnostic>) -> (r: Option<Integer>)
    requires
        !divides_by_zero(value@),
    ensures
        option_value(r) == eval(value@).0,
        diagnostics_view(final(diagnostics)@) == diagnostics_view(old(diagnostics)@) + eval(value@).1,
    decreases value,
{
    let ghost before = diagnostics_view(diagnostics@);
    match value {
        Expr::Literal { value: v, stable_ptr } => match v {
            Some(x) => {
                assert(diagnostics_view(diagnostics@) =~= before + eval(value@).1);
                Some(x.clone())
            },
            None => {
                push_diagnostic(diagnostics, *stable_ptr, "Invalid numeric literal in consteval_int macro");
                None
            },
        },
        Expr::Binary { op, lhs, rhs, stable_ptr } => {
            if *op == BinaryOperator::Other {
                push_diagnostic(diagnostics, *stable_ptr, "Unsupported binary operator in consteval_int macro");
                return None;
            }
            let l = match compute_constant_expr(lhs, diagnostics) {
                Some(l) => l,
                None => return None,
            };
            let ghost mid = diagnostics_view(diagnostics@);
            let r = match compute_constant_expr(rhs, diagnostics) {
                Some(r) => r,
                None => {
                    assert(diagnostics_view(diagnostics@) =~= before + eval(value@).1);
                    return None;
                },
            };
            assert(diagnostics_view(diagnostics@) =~= before + eval(value@).1);
            match op {
                BinaryOperator::Plus => Some(integer_add(&l, &r)),
                BinaryOperator::Minus => Some(integer_sub(&l, &r)),
                BinaryOperator::Mul => Some(integer_mul(&l, &r)),
                BinaryOperator::Div => Some(integer_div(&l, &r)),
                BinaryOperator::Mod => Some(integer_rem(&l, &r)),
                BinaryOperator::And => Some(integer_bitand(&l, &r)),
                BinaryOperator::Or => Some(integer_bitor(&l, &r)),
                BinaryOperator::Xor => Some(integer_bitxor(&l, &r)),
                BinaryOperator::Other => None,
            }
        },
        Expr::Unary { op, expr, stable_ptr } => {
            if *op == UnaryOperator::Minus {
                match compute_constant_expr(expr, diagnostics) {
                    Some(x) => Some(integer_neg(&x)),
                    None => None,
                }
            } else {
                push_diagnostic(diagnostics, *stable_ptr, "Unsupported unary operator in consteval_int macro");
                None
            }
        },
        Expr::Parenthesized(inner) => compute_constant_expr(inner, diagnostics),
        Expr::Unsupported(p) => {
            push_diagnostic(diagnostics, *p, "Unsupported expression in consteval_int macro");
            None
        },
    }
}

/// A comma-separated list of expressions.
pub struct ExprList {
    pub elements: Vec<Expr>,
    pub stable_ptr: SyntaxStablePtrId,
}

/// The arguments of an inline macro call, with the brackets they stand in.
pub enum WrappedExprList {
    /// `name!(..)`
    ParenthesizedExprList(ExprList),
    /// `name![..]`
    BracketedExprList(ExprList),
    /// `name!{..}`
    BracedExprList(ExprList),
    /// A call whose brackets are missing (a parse error).
    Missing,
}

/// An inline macro call `path!(arguments)`.
pub struct ExprInlineMacro {
    /// The text of the macro's path.
    pub path: String,
    pub arguments: WrappedExprList,
    pub stable_ptr: SyntaxStablePtrId,
}

/// Extracts the expression of a `consteval_int!` call, which must be its one argument, or
/// reports that there is not exactly one.
pub fn extract_consteval_macro_expression(
    macro_arguments: &ExprList,
    diagnostics: &mut Vec<PluginDiagnostic>,
) -> (r: Option<Expr>)
    ensures
        macro_arguments.elements.len() == 1 ==> {
            &&& r is Some
            &&& r.unwrap()@ == macro_arguments.elements@[0]@
            &&& final(diagnostics)@ == old(diagnostics)@
        },
        macro_arguments.elements.len() != 1 ==> {
            &&& r is None
            &&& diagnostics_view(final(diagnostics)@) == diagnostics_view(old(diagnostics)@).push(
                (macro_arguments.stable_ptr, single_argument_message()),
            )
        },
{
    let arguments = &macro_arguments.elements;
    if arguments.len() != 1 {
        push_diagnostic(
            diagnostics,
            macro_arguments.stable_ptr,
            "consteval_int macro must have a single unnamed argument.",
        );
        return None;
    }
    Some(arguments[0].clone())
}

/// The message reported for an inline macro called with brackets it does not support.
pub open spec fn unsupported_bracket_message(path: Seq<char>) -> Seq<char> {
    "Macro `"@ + path + "` does not support this bracket type."@
}

/// The result of an inline macro called with brackets it does not support: no code, and
/// a diagnostic at the call.
pub fn unsupported_bracket_diagnostic(syntax: &ExprInlineMacro) -> (r: InlinePluginResult)
    ensures
        r.code is None,
        diagnostics_view(r.diagnostics@) == seq![
            (syntax.stable_ptr, unsupported_bracket_message(syntax.path@)),
        ],
{
    let mut message = "Macro `".to_owned();
    message.append(syntax.path.as_str());
    message.append("` does not support this bracket type.");
    let mut diagnostics: Vec<PluginDiagnostic> = Vec::new();
    diagnostics.push(PluginDiagnostic { stable_ptr: syntax.stable_ptr, message });
    let r = InlinePluginResult { code: None, diagnostics };
    assert(diagnostics_view(r.diagnostics@) =~= seq![
        (syntax.stable_ptr, unsupported_bracket_message(syntax.path@)),
    ]);
    r
}

/// Whether the expansion of a `consteval_int!` call reaches a division by zero: its one
/// parenthesized argument does.
pub open spec fn macro_divides_by_zero(syntax: ExprInlineMacro) -> bool {
    match syntax.arguments {
        WrappedExprList::ParenthesizedExprList(args) => args.elements@.len() == 1
            && divides_by_zero(args.elements@[0]@),
        _ => false,
    }
}

/// Whether the expansion of a `consteval_int!` call reaches a division by zero.
pub fn macro_divides_by_zero_exec(syntax: &ExprInlineMacro) -> (b: bool)
    ensures
        b == macro_divides_by_zero(*syntax),
{
    match &syntax.arguments {
        WrappedExprList::ParenthesizedExprList(args) => args.elements.len() == 1
            && divides_by_zero_exec(&args.elements[0]),
        _ => false,
    }
}

/// The code that a `consteval_int!` call expands to: the decimal text of its argument's
/// value, where it has one.
pub open spec fn expansion_code(syntax: ExprInlineMacro) -> Option<Seq<char>> {
    match syntax.arguments {
        WrappedExprList::ParenthesizedExprList(args) => if args.elements@.len() == 1 {
            match eval(args.elements@[0]@).0 {
                Some(v) => Some(decimal_text(v)),
                None => None,
            }
        } else {
            None
        },
        _ => None,
    }
}

/// The diagnostics that a `consteval_int!` call reports.
pub open spec fn expansion_diagnostics(syntax: ExprInlineMacro) -> Seq<(SyntaxStablePtrId, Seq<char>)> {
    match syntax.arguments {
        WrappedExprList::ParenthesizedExprList(args) => if args.elements@.len() == 1 {
            eval(args.elements@[0]@).1
        } else {
            seq![(args.stable_ptr, single_argument_message())]
        },
        _ => seq![(syntax.stable_ptr, unsupported_bracket_message(syntax.path@))],
    }
}

/// A `consteval_int!` call either expands to code and reports no diagnostic, or expands
/// to no code and reports exactly one diagnostic.
pub proof fn lemma_expansion_code_or_one_diagnostic(syntax: ExprInlineMacro)
    ensures
        expansion_code(syntax) is Some ==> expansion_diagnostics(syntax).len() == 0,
        expansion_code(syntax) is None ==> expansion_diagnostics(syntax).len() == 1,
{
    match syntax.arguments {
        WrappedExprList::ParenthesizedExprList(args) => {
            if args.elements@.len() == 1 {
                lemma_value_or_one_diagnostic(args.elements@[0]@);
            }
        },
        _ => {},
    }
}

/// The view of optional code.
pub open spec fn code_view(code: Option<String>) -> Option<Seq<char>> {
    match code {
        Some(s) => Some(s@),
        None => None,
    }
}

/// The `consteval_int!` inline macro.
pub struct ConstevalIntMacro;

impl ConstevalIntMacro {
    /// Expands a `consteval_int!(expression)` call into the decimal text of the
    /// expression's value, or reports why it cannot.
    pub fn generate_code(&self, syntax: &ExprInlineMacro) -> (r: InlinePluginResult)
        requires
            !macro_divides_by_zero(*syntax),
        ensures
            code_view(r.code) == expansion_code(*syntax),
            diagnostics_view(r.diagnostics@) == expansion_diagnostics(*syntax),
    {
        let mut diagnostics: Vec<PluginDiagnostic> = Vec::new();
        let args = match &syntax.arguments {
            WrappedExprList::ParenthesizedExprList(args) => args,
            _ => {
                return unsupported_bracket_diagnostic(syntax);
            },
        };
        let constant_expression = extract_consteval_macro_expression(args, &mut diagnostics);
        assert(diagnostics_view(diagnostics@) =~= seq![] + diagnostics_view(diagnostics@));
        let expression = match constant_expression {
            Some(e) => e,
            None => {
                return InlinePluginResult { code: None, diagnostics };
            },
        };
        let code = compute_constant_expr(&expression, &mut diagnostics);
        assert(diagnostics_view(diagnostics@) =~= expansion_diagnostics(*syntax));
        let code = match code {
            Some(x) => Some(integer_to_string(&x)),
            None => None,
        };
        InlinePluginResult { code, diagnostics }
    }
}

} // verus!
