//! The expression evaluator: reduces an expression tree to an unsigned
//! 64-bit value against the accumulator of a parse, resolving identifiers
//! through assignment statements and the builtins `ORIGIN`/`LENGTH` through
//! `MEMORY` regions.
//!
//! Arithmetic wraps modulo 2^64; division by zero yields 0 rather than
//! trapping, so that every operator is total.

use vstd::prelude::*;
use vstd::wrapping::u64_specs;
use crate::ast::expr_view;
use crate::ast::BinaryOperator;
use crate::ast::EvalError;
use crate::ast::EvalErrorView;
use crate::ast::Expression;
use crate::ast::Region;
use crate::ast::Statement;
use crate::script::ParseState;
use crate::script::RootItem;
use crate::text::str_eq;

verus! {

/// Wrapping 64-bit division: the quotient, except that division by zero is
/// defined to yield 0.
pub open spec fn wrapping_div_or_zero(l: u64, r: u64) -> u64 {
    if r == 0 {
        0u64
    } else {
        (l as int / r as int) as u64
    }
}

/// What one application of a binary operator yields, in wrapping 64-bit
/// arithmetic.
pub open spec fn apply_op(op: BinaryOperator, l: u64, r: u64) -> u64 {
    match op {
        BinaryOperator::Plus => u64_specs::wrapping_add(l, r),
        BinaryOperator::Minus => u64_specs::wrapping_sub(l, r),
        BinaryOperator::Multiply => u64_specs::wrapping_mul(l, r),
        BinaryOperator::Divide => wrapping_div_or_zero(l, r),
    }
}

/// The expression the first assignment statement at or after index `i` binds
/// `name` to, scanning the accumulator in item order. The first match in
/// item order supplies the binding: a re-assignment never shadows the
/// earliest one.
pub open spec fn lookup_assign(items: Seq<RootItem>, i: int, name: Seq<char>) -> Option<Expression>
    decreases items.len() - i,
    when 0 <= i
{
    if i >= items.len() {
        Option::None
    } else {
        match items[i] {
            RootItem::Statement(stmt) => match stmt {
                Statement::Assign { name: n, operator: _, expression } => {
                    if n@ == name {
                        Option::Some(*expression)
                    } else {
                        lookup_assign(items, i + 1, name)
                    }
                },
            },
            _ => lookup_assign(items, i + 1, name),
        }
    }
}

/// The first region at or after index `j` named `name`.
pub open spec fn region_in(regions: Seq<Region>, j: int, name: Seq<char>) -> Option<Region>
    decreases regions.len() - j,
    when 0 <= j
{
    if j >= regions.len() {
        Option::None
    } else if regions[j].name@ == name {
        Option::Some(regions[j])
    } else {
        region_in(regions, j + 1, name)
    }
}

/// The first region named `name` in any `Memory` item at or after index `i`,
/// scanning items and, within each `MEMORY` block, regions in order.
pub open spec fn lookup_region(items: Seq<RootItem>, i: int, name: Seq<char>) -> Option<Region>
    decreases items.len() - i,
    when 0 <= i
{
    if i >= items.len() {
        Option::None
    } else {
        match items[i] {
            RootItem::Memory { regions } => match region_in(regions@, 0, name) {
                Option::Some(r) => Option::Some(r),
                Option::None => lookup_region(items, i + 1, name),
            },
            _ => lookup_region(items, i + 1, name),
        }
    }
}

/// What evaluating `expr` against the accumulator `items` yields. `fuel`
/// bounds how many identifier resolutions a single recursion path may take;
/// exhausting it reports a cycle.
pub open spec fn spec_eval(items: Seq<RootItem>, expr: Expression, fuel: nat) -> Result<
    u64,
    EvalErrorView,
>
    decreases fuel, expr,
{
    match expr {
        Expression::Number(n) => Result::Ok(n),
        Expression::Ident(s) => match lookup_assign(items, 0, s@) {
            Option::None => Result::Err(EvalErrorView::VariableNotFound(s@)),
            Option::Some(e) => {
                if fuel == 0 {
                    Result::Err(EvalErrorView::CycleDetected(s@))
                } else {
                    spec_eval(items, e, (fuel - 1) as nat)
                }
            },
        },
        Expression::Call { function, arguments } => {
            if function@ != "ORIGIN"@ && function@ != "LENGTH"@ {
                Result::Err(EvalErrorView::UnknownFunction(function@))
            } else if arguments@.len() != 1 {
                Result::Err(EvalErrorView::WrongArgumentCount(function@))
            } else {
                match arguments@[0] {
                    Expression::Ident(s) => match lookup_region(items, 0, s@) {
                        Option::Some(r) => Result::Ok(
                            if function@ == "ORIGIN"@ {
                                r.origin
                            } else {
                                r.length
                            },
                        ),
                        Option::None => Result::Err(EvalErrorView::VariableNotFound(s@)),
                    },
                    _ => Result::Err(EvalErrorView::BadArgument(function@)),
                }
            }
        },
        Expression::BinaryOp { left, operator, right } => {
            match spec_eval(items, *left, fuel) {
                Result::Err(e) => Result::Err(e),
                Result::Ok(l) => match spec_eval(items, *right, fuel) {
                    Result::Err(e) => Result::Err(e),
                    Result::Ok(r) => Result::Ok(apply_op(operator, l, r)),
                },
            }
        },
    }
}

/// An executable result, compared against the mathematical one variant by
/// variant.
pub open spec fn res_view(r: Result<u64, EvalError>) -> Result<u64, EvalErrorView> {
    match r {
        Result::Ok(v) => Result::Ok(v),
        Result::Err(e) => Result::Err(e@),
    }
}

/// Find the expression the first assignment in item order binds `name` to.
fn find_assign<'a>(state: &'a ParseState, name: &String) -> (r: Option<&'a Expression>)
    ensures
        match r {
            Option::Some(e) => lookup_assign(state.items@, 0, name@) == Option::Some(*e),
            Option::None => lookup_assign(state.items@, 0, name@) is None,
        },
{
    let n = state.items.len();
    let mut i: usize = 0;
    while i < n
        invariant
            n == state.items@.len(),
            0 <= i <= n,
            lookup_assign(state.items@, 0, name@) == lookup_assign(state.items@, i as int, name@),
        decreases n - i,
    {
        match &state.items[i] {
            RootItem::Statement(Statement::Assign { name: n2, operator: op, expression }) => {
                proof {
                    assert(state.items@[i as int] == RootItem::Statement(
                        Statement::Assign { name: *n2, operator: *op, expression: *expression },
                    ));
                }
                if str_eq(n2.as_str(), name.as_str()) {
                    proof {
                        assert(lookup_assign(state.items@, i as int, name@) == Option::Some(
                            **expression,
                        ));
                    }
                    return Some(&**expression);
                }
            },
            _ => {},
        }
        proof {
            assert(lookup_assign(state.items@, i as int, name@) == lookup_assign(
                state.items@,
                i + 1,
                name@,
            ));
        }
        i = i + 1;
    }
    None
}

/// Find the origin and length of the first region named `name` in any
/// `MEMORY` block, in item order.
fn find_region(state: &ParseState, name: &String) -> (r: Option<(u64, u64)>)
    ensures
        match lookup_region(state.items@, 0, name@) {
            Option::Some(reg) => r == Option::Some((reg.origin, reg.length)),
            Option::None => r is None,
        },
{
    let n = state.items.len();
    let mut i: usize = 0;
    while i < n
        invariant
            n == state.items@.len(),
            0 <= i <= n,
            lookup_region(state.items@, 0, name@) == lookup_region(state.items@, i as int, name@),
        decreases n - i,
    {
        match &state.items[i] {
            RootItem::Memory { regions } => {
                proof {
                    assert(state.items@[i as int] == (RootItem::Memory { regions: *regions }));
                }
                let m = regions.len();
                let mut j: usize = 0;
                while j < m
                    invariant
                        m == regions@.len(),
                        0 <= j <= m,
                        n == state.items@.len(),
                        0 <= i < n,
                        state.items@[i as int] == (RootItem::Memory { regions: *regions }),
                        lookup_region(state.items@, 0, name@) == lookup_region(
                            state.items@,
                            i as int,
                            name@,
                        ),
                        region_in(regions@, 0, name@) == region_in(regions@, j as int, name@),
                    decreases m - j,
                {
                    if regions[j].name == *name {
                        proof {
                            assert(region_in(regions@, j as int, name@) == Option::Some(
                                regions@[j as int],
                            ));
                            assert(region_in(regions@, 0, name@) == Option::Some(
                                regions@[j as int],
                            ));
                            assert(state.items@[i as int] == (RootItem::Memory {
                                regions: *regions,
                            }));
                            assert(lookup_region(state.items@, i as int, name@) == Option::Some(
                                regions@[j as int],
                            ));
                        }
                        return Some((regions[j].origin, regions[j].length));
                    }
                    proof {
                        assert(region_in(regions@, j as int, name@) == region_in(
                            regions@,
                            j + 1,
                            name@,
                        ));
                    }
                    j = j + 1;
                }
            },
            _ => {},
        }
        proof {
            assert(lookup_region(state.items@, i as int, name@) == lookup_region(
                state.items@,
                i + 1,
                name@,
            ));
        }
        i = i + 1;
    }
    None
}

/// Evaluate `expr` against the accumulator, spending at most `fuel`
/// identifier resolutions along any recursion path.
pub fn _evaluate_expression(state: &ParseState, expr: &Expression, fuel: usize) -> (r: Result<
    u64,
    EvalError,
>)
    ensures
        res_view(r) == spec_eval(state.items@, *expr, fuel as nat),
    decreases fuel, *expr,
{
    match expr {
        Expression::Number(n) => Ok(*n),
        Expression::Ident(s) => match find_assign(state, s) {
            Option::None => Err(EvalError::VariableNotFound(s.clone())),
            Option::Some(e) => {
                if fuel == 0 {
                    Err(EvalError::CycleDetected(s.clone()))
                } else {
                    _evaluate_expression(state, e, fuel - 1)
                }
            },
        },
        Expression::Call { function, arguments } => {
            let is_origin = str_eq(function.as_str(), "ORIGIN");
            let is_length = str_eq(function.as_str(), "LENGTH");
            if !is_origin && !is_length {
                Err(EvalError::UnknownFunction(function.clone()))
            } else if arguments.len() != 1 {
                Err(EvalError::WrongArgumentCount(function.clone()))
            } else {
                match &arguments[0] {
                    Expression::Ident(s) => match find_region(state, s) {
                        Option::Some((origin, length)) => Ok(
                            if is_origin {
                                origin
                            } else {
                                length
                            },
                        ),
                        Option::None => Err(EvalError::VariableNotFound(s.clone())),
                    },
                    _ => Err(EvalError::BadArgument(function.clone())),
                }
            }
        },
        Expression::BinaryOp { left, operator, right } => {
            let l = match _evaluate_expression(state, left, fuel) {
                Ok(v) => v,
                Err(e) => {
                    return Err(e);
                },
            };
            let r = match _evaluate_expression(state, right, fuel) {
                Ok(v) => v,
                Err(e) => {
                    return Err(e);
                },
            };
            match operator {
                BinaryOperator::Plus => Ok(l.wrapping_add(r)),
                BinaryOperator::Minus => Ok(l.wrapping_sub(r)),
                BinaryOperator::Multiply => Ok(l.wrapping_mul(r)),
                BinaryOperator::Divide => Ok(
                    if r == 0 {
                        0
                    } else {
                        l / r
                    },
                ),
            }
        },
    }
}

/// An expression built from numeric literals, the four arithmetic operators
/// and parenthesization alone: no identifiers and no calls.
pub open spec fn pure_numeric(e: Expression) -> bool
    decreases e,
{
    match e {
        Expression::Number(_) => true,
        Expression::BinaryOp { left, operator: _, right } => pure_numeric(*left) && pure_numeric(
            *right,
        ),
        _ => false,
    }
}

/// The direct wrapping 64-bit value of a pure-numeric expression.
pub open spec fn numeric_value(e: Expression) -> u64
    decreases e,
{
    match e {
        Expression::Number(n) => n,
        Expression::BinaryOp { left, operator, right } => apply_op(
            operator,
            numeric_value(*left),
            numeric_value(*right),
        ),
        _ => 0u64,
    }
}

/// Evaluating a pure-numeric expression always succeeds and yields its
/// direct wrapping 64-bit value, whatever the accumulator holds and whatever
/// fuel is granted: such an expression does not depend on any parsed state.
pub proof fn lemma_pure_numeric_eval(items: Seq<RootItem>, e: Expression, fuel: nat)
    requires
        pure_numeric(e),
    ensures
        spec_eval(items, e, fuel) == Result::<u64, EvalErrorView>::Ok(numeric_value(e)),
    decreases e,
{
    match e {
        Expression::BinaryOp { left, operator: _, right } => {
            lemma_pure_numeric_eval(items, *left, fuel);
            lemma_pure_numeric_eval(items, *right, fuel);
        },
        _ => {},
    }
}

/// The pure-numeric test and the direct wrapping value depend only on an
/// expression tree's shadow: two trees with equal shadows agree on both.
/// Together with the expression parser's contract, which pins the shadow of
/// the tree it returns for a given text, and [`lemma_pure_numeric_eval`],
/// this closes the chain from a pure-numeric source text to its direct
/// wrapping 64-bit value.
pub proof fn lemma_numeric_value_of_view(e1: Expression, e2: Expression)
    requires
        expr_view(e1) == expr_view(e2),
    ensures
        pure_numeric(e1) == pure_numeric(e2),
        pure_numeric(e1) ==> numeric_value(e1) == numeric_value(e2),
    decreases e1,
{
    match e1 {
        Expression::BinaryOp { left: l1, operator: _, right: r1 } => {
            match e2 {
                Expression::BinaryOp { left: l2, operator: _, right: r2 } => {
                    lemma_numeric_value_of_view(*l1, *l2);
                    lemma_numeric_value_of_view(*r1, *r2);
                },
                Expression::Number(_) => {},
                Expression::Ident(_) => {},
                Expression::Call { function: _, arguments: _ } => {},
            }
        },
        Expression::Number(_) => {
            match e2 {
                Expression::BinaryOp { left: _, operator: _, right: _ } => {},
                Expression::Number(_) => {},
                Expression::Ident(_) => {},
                Expression::Call { function: _, arguments: _ } => {},
            }
        },
        Expression::Ident(_) => {
            match e2 {
                Expression::BinaryOp { left: _, operator: _, right: _ } => {},
                Expression::Number(_) => {},
                Expression::Ident(_) => {},
                Expression::Call { function: _, arguments: _ } => {},
            }
        },
        Expression::Call { function: _, arguments: _ } => {
            match e2 {
                Expression::BinaryOp { left: _, operator: _, right: _ } => {},
                Expression::Number(_) => {},
                Expression::Ident(_) => {},
                Expression::Call { function: _, arguments: _ } => {},
            }
        },
    }
}

/// Evaluate an expression against the accumulator. The result is pinned by
/// [`spec_eval`] with one unit of fuel per accumulator item, which covers
/// every acyclic chain of identifier resolutions: along one recursion path
/// each resolved name resolves to a distinct assignment item, unless the
/// bindings form a cycle, which is reported as [`EvalError::CycleDetected`].
pub fn evaluate_expression(state: &ParseState, expr: Expression) -> (r: Result<u64, EvalError>)
    ensures
        res_view(r) == spec_eval(state.items@, expr, state.items@.len() as nat),
{
    let fuel = state.items.len();
    _evaluate_expression(state, &expr, fuel)
}

} // verus!
