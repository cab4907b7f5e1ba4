//! The expression sub-grammar: sums over products over atoms, giving `*` and
//! `/` precedence over `+` and `-`; atoms are numeric literals, identifiers,
//! calls `name(arg, ...)` and parenthesized sub-expressions.
//!
//! Each parser recognizes at `pos` and either hands back the node together
//! with the position just past it, or `None` when nothing matches there;
//! recognition never fails hard, so callers are free to try an alternative.
//! What each parser returns is pinned by a spec-level scan of the same
//! grammar: `expr_scan`, `term_scan` and `factor_scan` read the same text and
//! give the shadow of the recognized tree.

use vstd::prelude::*;
use vstd::string::StrSliceExecFns;
use crate::ast::expr_view;
use crate::ast::exprs_view;
use crate::ast::BinaryOperator;
use crate::ast::Expression;
use crate::ast::ExprView;
use crate::text::ident_at;
use crate::text::ident_end;
use crate::text::is_digit;
use crate::text::is_ident_start;
use crate::text::lemma_ident_end_bounds;
use crate::text::lemma_ws_scan_bounds;
use crate::text::number_at;
use crate::text::number_token;
use crate::text::skip_ws;
use crate::text::ws_end;

verus! {

/// The sum readable at `pos`: a product followed by further `+`/`-`
/// products, folded left to right.
pub open spec fn expr_scan(s: Seq<char>, pos: int) -> Option<(ExprView, int)>
    decreases s.len() - pos, 2int,
    when 0 <= pos <= s.len()
{
    match term_scan(s, pos) {
        Option::None => Option::None,
        Option::Some((e, np)) => {
            if pos < np <= s.len() {
                Option::Some(sum_loop(s, e, np))
            } else {
                Option::Some((e, np))
            }
        },
    }
}

/// Fold further `+`/`-` products onto `acc`, starting at `cur`.
pub open spec fn sum_loop(s: Seq<char>, acc: ExprView, cur: int) -> (ExprView, int)
    decreases s.len() - cur, 1int,
    when 0 <= cur <= s.len()
    via sum_loop_decreases
{
    let wp = ws_end(s, cur);
    if wp < s.len() && (s[wp] == '+' || s[wp] == '-') {
        let rp = ws_end(s, wp + 1);
        match term_scan(s, rp) {
            Option::Some((e2, np2)) => {
                let op = if s[wp] == '+' {
                    BinaryOperator::Plus
                } else {
                    BinaryOperator::Minus
                };
                let node = ExprView::BinaryOp(op, Box::new(acc), Box::new(e2));
                if cur < np2 <= s.len() {
                    sum_loop(s, node, np2)
                } else {
                    (acc, cur)
                }
            },
            Option::None => (acc, cur),
        }
    } else {
        (acc, cur)
    }
}

#[via_fn]
proof fn sum_loop_decreases(s: Seq<char>, acc: ExprView, cur: int) {
    lemma_ws_scan_bounds(s, cur, Option::None);
    let wp = ws_end(s, cur);
    if wp < s.len() {
        lemma_ws_scan_bounds(s, wp + 1, Option::None);
    }
}

/// The product readable at `pos`: an atom followed by further `*`/`/` atoms,
/// folded left to right.
pub open spec fn term_scan(s: Seq<char>, pos: int) -> Option<(ExprView, int)>
    decreases s.len() - pos, 1int,
    when 0 <= pos <= s.len()
{
    match factor_scan(s, pos) {
        Option::None => Option::None,
        Option::Some((e, np)) => {
            if pos < np <= s.len() {
                Option::Some(prod_loop(s, e, np))
            } else {
                Option::Some((e, np))
            }
        },
    }
}

/// Fold further `*`/`/` atoms onto `acc`, starting at `cur`.
pub open spec fn prod_loop(s: Seq<char>, acc: ExprView, cur: int) -> (ExprView, int)
    decreases s.len() - cur, 0int,
    when 0 <= cur <= s.len()
    via prod_loop_decreases
{
    let wp = ws_end(s, cur);
    if wp < s.len() && (s[wp] == '*' || s[wp] == '/') {
        let rp = ws_end(s, wp + 1);
        match factor_scan(s, rp) {
            Option::Some((e2, np2)) => {
                let op = if s[wp] == '*' {
                    BinaryOperator::Multiply
                } else {
                    BinaryOperator::Divide
                };
                let node = ExprView::BinaryOp(op, Box::new(acc), Box::new(e2));
                if cur < np2 <= s.len() {
                    prod_loop(s, node, np2)
                } else {
                    (acc, cur)
                }
            },
            Option::None => (acc, cur),
        }
    } else {
        (acc, cur)
    }
}

#[via_fn]
proof fn prod_loop_decreases(s: Seq<char>, acc: ExprView, cur: int) {
    lemma_ws_scan_bounds(s, cur, Option::None);
    let wp = ws_end(s, cur);
    if wp < s.len() {
        lemma_ws_scan_bounds(s, wp + 1, Option::None);
    }
}

/// The atom readable at `pos`: a parenthesized sum, a numeric literal, a
/// call, or a bare identifier.
pub open spec fn factor_scan(s: Seq<char>, pos: int) -> Option<(ExprView, int)>
    decreases s.len() - pos, 0int,
    when 0 <= pos <= s.len()
    via factor_scan_decreases
{
    if pos >= s.len() {
        Option::None
    } else if s[pos] == '(' {
        let wp = ws_end(s, pos + 1);
        match expr_scan(s, wp) {
            Option::None => Option::None,
            Option::Some((e, np)) => {
                let wp2 = ws_end(s, np);
                if wp2 < s.len() && s[wp2] == ')' {
                    Option::Some((e, wp2 + 1))
                } else {
                    Option::None
                }
            },
        }
    } else if is_digit(s[pos]) {
        let (v, np) = number_token(s, pos);
        Option::Some((ExprView::Number(v), np))
    } else if is_ident_start(s[pos]) {
        let i1 = ident_end(s, pos + 1);
        let wp = ws_end(s, i1);
        if wp < s.len() && s[wp] == '(' {
            let start = ws_end(s, wp + 1);
            let (args, stop) = call_args_scan(s, start);
            if stop < s.len() && s[stop] == ')' {
                Option::Some((ExprView::Call(s.subrange(pos, i1), args), stop + 1))
            } else {
                Option::None
            }
        } else {
            Option::Some((ExprView::Ident(s.subrange(pos, i1)), i1))
        }
    } else {
        Option::None
    }
}

#[via_fn]
proof fn factor_scan_decreases(s: Seq<char>, pos: int) {
    if 0 <= pos < s.len() {
        lemma_ws_scan_bounds(s, pos + 1, Option::None);
        if is_ident_start(s[pos]) {
            lemma_ident_end_bounds(s, pos + 1);
            let i1 = ident_end(s, pos + 1);
            lemma_ws_scan_bounds(s, i1, Option::None);
            let wp = ws_end(s, i1);
            if wp < s.len() {
                lemma_ws_scan_bounds(s, wp + 1, Option::None);
            }
        }
    }
}

/// The comma-separated sums readable at `pos`, together with the position
/// where the scan stops: after the last sum that a comma did not follow, or
/// at `pos` itself if no sum is readable there.
pub open spec fn call_args_scan(s: Seq<char>, pos: int) -> (Seq<ExprView>, int)
    decreases s.len() - pos, 3int,
    when 0 <= pos <= s.len()
{
    match expr_scan(s, pos) {
        Option::None => (Seq::<ExprView>::empty(), pos),
        Option::Some((e, np)) => {
            let wp2 = ws_end(s, np);
            if wp2 < s.len() && s[wp2] == ',' {
                let next = ws_end(s, wp2 + 1);
                if pos < next <= s.len() {
                    let (rest, stop) = call_args_scan(s, next);
                    (seq![e] + rest, stop)
                } else {
                    (seq![e], wp2)
                }
            } else {
                (seq![e], wp2)
            }
        },
    }
}

/// A fold over further operators stops where no operator or no right-hand
/// operand follows.
proof fn lemma_sum_loop_stops(s: Seq<char>, acc: ExprView, cur: int)
    requires
        0 <= cur <= s.len(),
        ({
            let wp = ws_end(s, cur);
            !(wp < s.len() && (s[wp] == '+' || s[wp] == '-')) || term_scan(
                s,
                ws_end(s, wp + 1),
            ) is None
        }),
    ensures
        sum_loop(s, acc, cur) == (acc, cur),
{
    lemma_ws_scan_bounds(s, cur, Option::None);
    let wp = ws_end(s, cur);
    if wp < s.len() {
        lemma_ws_scan_bounds(s, wp + 1, Option::None);
    }
}

/// One step of the fold over `+`/`-`: the recognized product joins the
/// accumulator under the operator read.
proof fn lemma_sum_loop_step(s: Seq<char>, acc: ExprView, cur: int, e2: ExprView, np2: int)
    requires
        0 <= cur <= s.len(),
        ({
            let wp = ws_end(s, cur);
            &&& wp < s.len()
            &&& (s[wp] == '+' || s[wp] == '-')
            &&& term_scan(s, ws_end(s, wp + 1)) == Option::Some((e2, np2))
            &&& cur < np2 <= s.len()
        }),
    ensures
        ({
            let wp = ws_end(s, cur);
            let op = if s[wp] == '+' {
                BinaryOperator::Plus
            } else {
                BinaryOperator::Minus
            };
            sum_loop(s, acc, cur) == sum_loop(
                s,
                ExprView::BinaryOp(op, Box::new(acc), Box::new(e2)),
                np2,
            )
        }),
{
    lemma_ws_scan_bounds(s, cur, Option::None);
    let wp = ws_end(s, cur);
    lemma_ws_scan_bounds(s, wp + 1, Option::None);
}

/// A fold over further operators stops where no operator or no right-hand
/// operand follows.
proof fn lemma_prod_loop_stops(s: Seq<char>, acc: ExprView, cur: int)
    requires
        0 <= cur <= s.len(),
        ({
            let wp = ws_end(s, cur);
            !(wp < s.len() && (s[wp] == '*' || s[wp] == '/')) || factor_scan(
                s,
                ws_end(s, wp + 1),
            ) is None
        }),
    ensures
        prod_loop(s, acc, cur) == (acc, cur),
{
    lemma_ws_scan_bounds(s, cur, Option::None);
    let wp = ws_end(s, cur);
    if wp < s.len() {
        lemma_ws_scan_bounds(s, wp + 1, Option::None);
    }
}

/// One step of the fold over `*`/`/`: the recognized atom joins the
/// accumulator under the operator read.
proof fn lemma_prod_loop_step(s: Seq<char>, acc: ExprView, cur: int, e2: ExprView, np2: int)
    requires
        0 <= cur <= s.len(),
        ({
            let wp = ws_end(s, cur);
            &&& wp < s.len()
            &&& (s[wp] == '*' || s[wp] == '/')
            &&& factor_scan(s, ws_end(s, wp + 1)) == Option::Some((e2, np2))
            &&& cur < np2 <= s.len()
        }),
    ensures
        ({
            let wp = ws_end(s, cur);
            let op = if s[wp] == '*' {
                BinaryOperator::Multiply
            } else {
                BinaryOperator::Divide
            };
            prod_loop(s, acc, cur) == prod_loop(
                s,
                ExprView::BinaryOp(op, Box::new(acc), Box::new(e2)),
                np2,
            )
        }),
{
    lemma_ws_scan_bounds(s, cur, Option::None);
    let wp = ws_end(s, cur);
    lemma_ws_scan_bounds(s, wp + 1, Option::None);
}

/// Parse a sum: products separated by `+` or `-`, folded left to right. The
/// result is exactly what [`expr_scan`] reads at `pos`.
pub fn expression(s: &str, pos: usize) -> (r: Option<(Expression, usize)>)
    requires
        pos <= s@.len(),
    ensures
        match r {
            Option::Some((e, np)) => pos < np <= s@.len() && expr_scan(s@, pos as int)
                == Option::Some((expr_view(e), np as int)),
            Option::None => expr_scan(s@, pos as int) is None,
        },
    decreases s@.len() - pos, 2int,
{
    let len = s.unicode_len();
    let mut acc: Expression;
    let mut cur: usize;
    match term(s, pos) {
        Option::None => {
            return None;
        },
        Option::Some((e, np)) => {
            acc = e;
            cur = np;
        },
    }
    loop
        invariant
            len == s@.len(),
            pos < cur <= len,
            expr_scan(s@, pos as int) == Option::Some(sum_loop(s@, expr_view(acc), cur as int)),
        decreases len - cur,
    {
        let wp = skip_ws(s, cur);
        if wp < len {
            let c = s.get_char(wp);
            if c == '+' || c == '-' {
                let rp = skip_ws(s, wp + 1);
                match term(s, rp) {
                    Option::Some((e2, np2)) => {
                        proof {
                            lemma_sum_loop_step(
                                s@,
                                expr_view(acc),
                                cur as int,
                                expr_view(e2),
                                np2 as int,
                            );
                        }
                        let op = if c == '+' {
                            BinaryOperator::Plus
                        } else {
                            BinaryOperator::Minus
                        };
                        acc = Expression::BinaryOp {
                            left: Box::new(acc),
                            operator: op,
                            right: Box::new(e2),
                        };
                        cur = np2;
                    },
                    Option::None => {
                        proof {
                            lemma_sum_loop_stops(s@, expr_view(acc), cur as int);
                        }
                        return Some((acc, cur));
                    },
                }
            } else {
                proof {
                    lemma_sum_loop_stops(s@, expr_view(acc), cur as int);
                }
                return Some((acc, cur));
            }
        } else {
            proof {
                lemma_sum_loop_stops(s@, expr_view(acc), cur as int);
            }
            return Some((acc, cur));
        }
    }
}

/// Parse a product: atoms separated by `*` or `/`, folded left to right. The
/// result is exactly what [`term_scan`] reads at `pos`.
fn term(s: &str, pos: usize) -> (r: Option<(Expression, usize)>)
    requires
        pos <= s@.len(),
    ensures
        match r {
            Option::Some((e, np)) => pos < np <= s@.len() && term_scan(s@, pos as int)
                == Option::Some((expr_view(e), np as int)),
            Option::None => term_scan(s@, pos as int) is None,
        },
    decreases s@.len() - pos, 1int,
{
    let len = s.unicode_len();
    let mut acc: Expression;
    let mut cur: usize;
    match factor(s, pos) {
        Option::None => {
            return None;
        },
        Option::Some((e, np)) => {
            acc = e;
            cur = np;
        },
    }
    loop
        invariant
            len == s@.len(),
            pos < cur <= len,
            term_scan(s@, pos as int) == Option::Some(prod_loop(s@, expr_view(acc), cur as int)),
        decreases len - cur,
    {
        let wp = skip_ws(s, cur);
        if wp < len {
            let c = s.get_char(wp);
            if c == '*' || c == '/' {
                let rp = skip_ws(s, wp + 1);
                match factor(s, rp) {
                    Option::Some((e2, np2)) => {
                        proof {
                            lemma_prod_loop_step(
                                s@,
                                expr_view(acc),
                                cur as int,
                                expr_view(e2),
                                np2 as int,
                            );
                        }
                        let op = if c == '*' {
                            BinaryOperator::Multiply
                        } else {
                            BinaryOperator::Divide
                        };
                        acc = Expression::BinaryOp {
                            left: Box::new(acc),
                            operator: op,
                            right: Box::new(e2),
                        };
                        cur = np2;
                    },
                    Option::None => {
                        proof {
                            lemma_prod_loop_stops(s@, expr_view(acc), cur as int);
                        }
                        return Some((acc, cur));
                    },
                }
            } else {
                proof {
                    lemma_prod_loop_stops(s@, expr_view(acc), cur as int);
                }
                return Some((acc, cur));
            }
        } else {
            proof {
                lemma_prod_loop_stops(s@, expr_view(acc), cur as int);
            }
            return Some((acc, cur));
        }
    }
}

/// Parse an atom: a parenthesized sub-expression, a numeric literal, a call,
/// or a bare identifier. The result is exactly what [`factor_scan`] reads at
/// `pos`.
fn factor(s: &str, pos: usize) -> (r: Option<(Expression, usize)>)
    requires
        pos <= s@.len(),
    ensures
        match r {
            Option::Some((e, np)) => pos < np <= s@.len() && factor_scan(s@, pos as int)
                == Option::Some((expr_view(e), np as int)),
            Option::None => factor_scan(s@, pos as int) is None,
        },
    decreases s@.len() - pos, 0int,
{
    let len = s.unicode_len();
    if pos >= len {
        return None;
    }
    let c = s.get_char(pos);
    if c == '(' {
        let wp = skip_ws(s, pos + 1);
        match expression(s, wp) {
            Option::None => None,
            Option::Some((e, np)) => {
                let wp2 = skip_ws(s, np);
                if wp2 < len && s.get_char(wp2) == ')' {
                    Some((e, wp2 + 1))
                } else {
                    None
                }
            },
        }
    } else {
        match number_at(s, pos) {
            Option::Some((v, np)) => Some((Expression::Number(v), np)),
            Option::None => {
                match ident_at(s, pos) {
                    Option::None => None,
                    Option::Some((name, np)) => {
                        let wp = skip_ws(s, np);
                        if wp < len && s.get_char(wp) == '(' {
                            let mut arguments: Vec<Expression> = Vec::new();
                            let start = skip_ws(s, wp + 1);
                            let mut cur = start;
                            proof {
                                assert(call_args_scan(s@, start as int).0 =~= exprs_view(
                                    arguments@,
                                ) + call_args_scan(s@, cur as int).0);
                            }
                            loop
                                invariant
                                    len == s@.len(),
                                    pos < cur <= len,
                                    pos < start <= len,
                                    name@ == s@.subrange(pos as int, np as int),
                                    np == ident_end(s@, pos + 1),
                                    pos < np <= len,
                                    wp == ws_end(s@, np as int),
                                    wp < len && s@[wp as int] == '(',
                                    is_ident_start(s@[pos as int]),
                                    start == ws_end(s@, wp + 1),
                                    call_args_scan(s@, start as int).0 == exprs_view(arguments@)
                                        + call_args_scan(s@, cur as int).0,
                                    call_args_scan(s@, start as int).1 == call_args_scan(
                                        s@,
                                        cur as int,
                                    ).1,
                                decreases len - cur,
                            {
                                match expression(s, cur) {
                                    Option::None => {
                                        proof {
                                            assert(call_args_scan(s@, cur as int) == (
                                                Seq::<ExprView>::empty(),
                                                cur as int,
                                            ));
                                            assert(call_args_scan(s@, start as int).0
                                                =~= exprs_view(arguments@));
                                        }
                                        if cur < len && s.get_char(cur) == ')' {
                                            return Some(
                                                (
                                                    Expression::Call { function: name, arguments },
                                                    cur + 1,
                                                ),
                                            );
                                        } else {
                                            return None;
                                        }
                                    },
                                    Option::Some((e, np2)) => {
                                        let wp2 = skip_ws(s, np2);
                                        if wp2 < len && s.get_char(wp2) == ',' {
                                            let next = skip_ws(s, wp2 + 1);
                                            proof {
                                                assert(call_args_scan(s@, cur as int).0 == seq![
                                                    expr_view(e),
                                                ] + call_args_scan(s@, next as int).0);
                                                assert(arguments@.push(e).drop_last() =~= arguments@);
                                                assert(exprs_view(arguments@.push(e))
                                                    =~= exprs_view(arguments@) + seq![
                                                    expr_view(e),
                                                ]);
                                                assert(exprs_view(arguments@) + (seq![expr_view(e)]
                                                    + call_args_scan(s@, next as int).0) =~= (
                                                exprs_view(arguments@) + seq![expr_view(e)])
                                                    + call_args_scan(s@, next as int).0);
                                            }
                                            arguments.push(e);
                                            cur = next;
                                        } else {
                                            proof {
                                                assert(call_args_scan(s@, cur as int) == (seq![
                                                    expr_view(e),
                                                ], wp2 as int));
                                                assert(arguments@.push(e).drop_last() =~= arguments@);
                                                assert(exprs_view(arguments@.push(e))
                                                    =~= exprs_view(arguments@) + seq![
                                                    expr_view(e),
                                                ]);
                                                assert(call_args_scan(s@, start as int).0
                                                    =~= exprs_view(arguments@.push(e)));
                                            }
                                            arguments.push(e);
                                            if wp2 < len && s.get_char(wp2) == ')' {
                                                return Some(
                                                    (
                                                        Expression::Call {
                                                            function: name,
                                                            arguments,
                                                        },
                                                        wp2 + 1,
                                                    ),
                                                );
                                            } else {
                                                return None;
                                            }
                                        }
                                    },
                                }
                            }
                        } else {
                            Some((Expression::Ident(name), np))
                        }
                    },
                }
            },
        }
    }
}

} // verus!
