//! Boolean simplifications of filter predicates: pushing negation through
//! AND/OR (De Morgan's laws) and factoring shared conjuncts out of an OR.
use vstd::prelude::*;
use crate::scalar::{
    Datum, EvalError, ScalarExpr, UnaryFunc, BinaryFunc, denote, equivalent,
    take_scalar,
};
use crate::undistribute_laws::{same_outcomes, lemma_undistribute_same_outcomes};

verus! {

// ---------------------------------------------------------------------------
// De Morgan's laws
// ---------------------------------------------------------------------------

pub open spec fn not_of(e: ScalarExpr) -> ScalarExpr {
    ScalarExpr::CallUnary { func: UnaryFunc::Not, expr: Box::new(e) }
}

pub open spec fn binary(func: BinaryFunc, a: ScalarExpr, b: ScalarExpr) -> ScalarExpr {
    ScalarExpr::CallBinary { func, expr1: Box::new(a), expr2: Box::new(b) }
}

/// One De Morgan step at the root: `NOT(a AND b)` becomes `NOT a OR NOT b`,
/// `NOT(a OR b)` becomes `NOT a AND NOT b`; any other expression is left as
/// it is.
pub open spec fn demorgans_step(e: ScalarExpr) -> ScalarExpr {
    match e {
        ScalarExpr::CallUnary { func: UnaryFunc::Not, expr } => match *expr {
            ScalarExpr::CallBinary { func: BinaryFunc::And, expr1, expr2 } => binary(
                BinaryFunc::Or,
                not_of(*expr1),
                not_of(*expr2),
            ),
            ScalarExpr::CallBinary { func: BinaryFunc::Or, expr1, expr2 } => binary(
                BinaryFunc::And,
                not_of(*expr1),
                not_of(*expr2),
            ),
            _ => e,
        },
        _ => e,
    }
}

/// The number of nodes of an expression.
pub open spec fn expr_size(e: ScalarExpr) -> nat
    decreases e,
{
    match e {
        ScalarExpr::CallUnary { expr, .. } => 1 + expr_size(*expr),
        ScalarExpr::CallBinary { expr1, expr2, .. } => 1 + expr_size(*expr1) + expr_size(*expr2),
        _ => 1,
    }
}

/// De Morgan's laws applied throughout an expression, pre-order: where a
/// node is rewritten, the negations it creates are considered next; any
/// other node is kept and its arguments are rewritten. One pass need not
/// reach a fixpoint: a negation above a node that only becomes an AND or OR
/// by the rewrite stays in place.
pub open spec fn demorgans_spec(e: ScalarExpr) -> ScalarExpr
    decreases expr_size(e) via demorgans_spec_decreases
{
    match e {
        ScalarExpr::CallUnary { func, expr } => match *expr {
            ScalarExpr::CallBinary { func: g, expr1, expr2 } => if func == UnaryFunc::Not && (g
                == BinaryFunc::And || g == BinaryFunc::Or) {
                binary(
                    if g == BinaryFunc::And {
                        BinaryFunc::Or
                    } else {
                        BinaryFunc::And
                    },
                    demorgans_spec(not_of(*expr1)),
                    demorgans_spec(not_of(*expr2)),
                )
            } else {
                ScalarExpr::CallUnary { func, expr: Box::new(demorgans_spec(*expr)) }
            },
            _ => ScalarExpr::CallUnary { func, expr: Box::new(demorgans_spec(*expr)) },
        },
        ScalarExpr::CallBinary { func, expr1, expr2 } => binary(
            func,
            demorgans_spec(*expr1),
            demorgans_spec(*expr2),
        ),
        _ => e,
    }
}

#[via_fn]
proof fn demorgans_spec_decreases(e: ScalarExpr) {
    lemma_not_smaller(e);
}

/// Negating the arguments of a negated AND or OR gives smaller expressions.
proof fn lemma_not_smaller(e: ScalarExpr)
    ensures
        e matches ScalarExpr::CallUnary { expr, .. } ==> expr_size(*expr) < expr_size(e),
        e matches ScalarExpr::CallUnary { expr, .. } ==> ((*expr) matches ScalarExpr::CallBinary {
            expr1,
            expr2,
            ..
        } ==> expr_size(not_of(*expr1)) < expr_size(e) && expr_size(not_of(*expr2)) < expr_size(
            e,
        )),
        e matches ScalarExpr::CallBinary { expr1, expr2, .. } ==> expr_size(*expr1) < expr_size(e)
            && expr_size(*expr2) < expr_size(e),
{
    match e {
        ScalarExpr::CallUnary { expr, .. } => match *expr {
            ScalarExpr::CallBinary { expr1, expr2, .. } => {
                assert(expr_size(*expr) == 1 + expr_size(*expr1) + expr_size(*expr2));
                assert(expr_size(not_of(*expr1)) == 1 + expr_size(*expr1));
                assert(expr_size(not_of(*expr2)) == 1 + expr_size(*expr2));
            },
            _ => {},
        },
        _ => {},
    }
}

/// One De Morgan step keeps the value of a predicate on every row, under
/// three-valued logic.
pub proof fn lemma_demorgans_step_equivalent(e: ScalarExpr)
    ensures
        equivalent(demorgans_step(e), e),
{
    assert forall|row: Seq<Datum>| denote(demorgans_step(e), row) == denote(e, row) by {
        reveal_with_fuel(denote, 3);
    }
}

/// Expressions whose arguments agree on every row agree on every row.
pub proof fn lemma_equivalent_congruence(e: ScalarExpr, e2: ScalarExpr)
    requires
        match (e, e2) {
            (ScalarExpr::CallUnary { func: f, expr: a }, ScalarExpr::CallUnary { func: g, expr: b }) =>
                f == g && equivalent(*a, *b),
            (
                ScalarExpr::CallBinary { func: f, expr1: a1, expr2: a2 },
                ScalarExpr::CallBinary { func: g, expr1: b1, expr2: b2 },
            ) => f == g && equivalent(*a1, *b1) && equivalent(*a2, *b2),
            _ => e == e2,
        },
    ensures
        equivalent(e, e2),
{
    assert forall|row: Seq<Datum>| denote(e, row) == denote(e2, row) by {
        match (e, e2) {
            (ScalarExpr::CallUnary { expr: a, .. }, ScalarExpr::CallUnary { expr: b, .. }) => {
                assert(denote(*a, row) == denote(*b, row));
            },
            (
                ScalarExpr::CallBinary { expr1: a1, expr2: a2, .. },
                ScalarExpr::CallBinary { expr1: b1, expr2: b2, .. },
            ) => {
                assert(denote(*a1, row) == denote(*b1, row));
                assert(denote(*a2, row) == denote(*b2, row));
            },
            _ => {},
        }
    }
}

/// Rewriting by De Morgan's laws keeps the value of a predicate on every
/// row, under three-valued logic.
pub proof fn lemma_demorgans_equivalent(e: ScalarExpr)
    ensures
        equivalent(demorgans_spec(e), e),
    decreases expr_size(e),
{
    lemma_not_smaller(e);
    match e {
        ScalarExpr::CallUnary { func, expr } => {
            match *expr {
                ScalarExpr::CallBinary { func: g, expr1, expr2 } => {
                    if func == UnaryFunc::Not && (g == BinaryFunc::And || g == BinaryFunc::Or) {
                        let h = if g == BinaryFunc::And {
                            BinaryFunc::Or
                        } else {
                            BinaryFunc::And
                        };
                        lemma_demorgans_equivalent(not_of(*expr1));
                        lemma_demorgans_equivalent(not_of(*expr2));
                        let step = binary(h, not_of(*expr1), not_of(*expr2));
                        lemma_equivalent_congruence(demorgans_spec(e), step);
                        lemma_demorgans_step_equivalent(e);
                        assert(demorgans_step(e) == step);
                    } else {
                        lemma_demorgans_equivalent(*expr);
                        lemma_equivalent_congruence(demorgans_spec(e), e);
                    }
                },
                _ => {
                    lemma_demorgans_equivalent(*expr);
                    lemma_equivalent_congruence(demorgans_spec(e), e);
                },
            }
        },
        ScalarExpr::CallBinary { func, expr1, expr2 } => {
            lemma_demorgans_equivalent(*expr1);
            lemma_demorgans_equivalent(*expr2);
            lemma_equivalent_congruence(demorgans_spec(e), e);
        },
        _ => {},
    }
}

/// Whether no subexpression has the shape `NOT(a AND b)` or `NOT(a OR b)`.
pub open spec fn negation_pushed(e: ScalarExpr) -> bool
    decreases e,
{
    match e {
        ScalarExpr::CallUnary { func, expr } => negation_pushed(*expr) && !(func == UnaryFunc::Not
            && ((*expr) matches ScalarExpr::CallBinary { func: g, .. } && (g == BinaryFunc::And
            || g == BinaryFunc::Or))),
        ScalarExpr::CallBinary { expr1, expr2, .. } => negation_pushed(*expr1) && negation_pushed(
            *expr2,
        ),
        _ => true,
    }
}

/// The pass leaves an expression without `NOT(a AND b)` or `NOT(a OR b)`
/// unchanged.
pub proof fn lemma_demorgans_pushed_unchanged(e: ScalarExpr)
    requires
        negation_pushed(e),
    ensures
        demorgans_spec(e) == e,
    decreases e,
{
    match e {
        ScalarExpr::CallUnary { expr, .. } => lemma_demorgans_pushed_unchanged(*expr),
        ScalarExpr::CallBinary { expr1, expr2, .. } => {
            lemma_demorgans_pushed_unchanged(*expr1);
            lemma_demorgans_pushed_unchanged(*expr2);
        },
        _ => {},
    }
}

/// `NOT(a AND b)` becomes `NOT a OR NOT b`, and `NOT(a OR b)` becomes
/// `NOT a AND NOT b`, for `a` and `b` that are neither AND nor OR and hold
/// no such negation; a second pass over the result changes nothing.
pub proof fn lemma_demorgans_fixpoint(a: ScalarExpr, b: ScalarExpr)
    requires
        negation_pushed(a),
        negation_pushed(b),
        !(a matches ScalarExpr::CallBinary { func: g, .. } && (g == BinaryFunc::And || g
            == BinaryFunc::Or)),
        !(b matches ScalarExpr::CallBinary { func: g, .. } && (g == BinaryFunc::And || g
            == BinaryFunc::Or)),
    ensures
        demorgans_spec(not_of(binary(BinaryFunc::And, a, b))) == binary(
            BinaryFunc::Or,
            not_of(a),
            not_of(b),
        ),
        demorgans_spec(not_of(binary(BinaryFunc::Or, a, b))) == binary(
            BinaryFunc::And,
            not_of(a),
            not_of(b),
        ),
        demorgans_spec(binary(BinaryFunc::Or, not_of(a), not_of(b))) == binary(
            BinaryFunc::Or,
            not_of(a),
            not_of(b),
        ),
        demorgans_spec(binary(BinaryFunc::And, not_of(a), not_of(b))) == binary(
            BinaryFunc::And,
            not_of(a),
            not_of(b),
        ),
{
    assert(negation_pushed(not_of(a)));
    assert(negation_pushed(not_of(b)));
    lemma_demorgans_pushed_unchanged(not_of(a));
    lemma_demorgans_pushed_unchanged(not_of(b));
    lemma_demorgans_pushed_unchanged(binary(BinaryFunc::Or, not_of(a), not_of(b)));
    lemma_demorgans_pushed_unchanged(binary(BinaryFunc::And, not_of(a), not_of(b)));
}

/// Rewrites the predicate by De Morgan's laws throughout, pre-order.
pub fn demorgans(expr: &mut ScalarExpr)
    ensures
        *final(expr) == demorgans_spec(*old(expr)),
        equivalent(*final(expr), *old(expr)),
{
    proof {
        lemma_demorgans_equivalent(*expr);
    }
    let e = take_scalar(expr);
    *expr = demorgans_exec(e);
}

fn demorgans_exec(e: ScalarExpr) -> (r: ScalarExpr)
    ensures
        r == demorgans_spec(e),
    decreases expr_size(e),
{
    proof {
        lemma_not_smaller(e);
    }
    match e {
        ScalarExpr::CallUnary { func, expr } => match *expr {
            ScalarExpr::CallBinary { func: g, expr1, expr2 } => {
                if func == UnaryFunc::Not && (g == BinaryFunc::And || g == BinaryFunc::Or) {
                    let h = if g == BinaryFunc::And {
                        BinaryFunc::Or
                    } else {
                        BinaryFunc::And
                    };
                    let a = demorgans_exec(ScalarExpr::CallUnary { func: UnaryFunc::Not, expr: expr1 });
                    let b = demorgans_exec(ScalarExpr::CallUnary { func: UnaryFunc::Not, expr: expr2 });
                    ScalarExpr::CallBinary { func: h, expr1: Box::new(a), expr2: Box::new(b) }
                } else {
                    let inner = demorgans_exec(ScalarExpr::CallBinary { func: g, expr1, expr2 });
                    ScalarExpr::CallUnary { func, expr: Box::new(inner) }
                }
            },
            other => {
                let inner = demorgans_exec(other);
                ScalarExpr::CallUnary { func, expr: Box::new(inner) }
            },
        },
        ScalarExpr::CallBinary { func, expr1, expr2 } => {
            let a = demorgans_exec(*expr1);
            let b = demorgans_exec(*expr2);
            ScalarExpr::CallBinary { func, expr1: Box::new(a), expr2: Box::new(b) }
        },
        other => other,
    }
}

// ---------------------------------------------------------------------------
// AND undistribution
// ---------------------------------------------------------------------------

/// The conjuncts of an expression: nested ANDs are unfolded, left to right;
/// anything else is one conjunct.
pub open spec fn harvest(e: ScalarExpr) -> Seq<ScalarExpr>
    decreases e,
{
    match e {
        ScalarExpr::CallBinary { func: BinaryFunc::And, expr1, expr2 } => harvest(*expr1) + harvest(
            *expr2,
        ),
        _ => seq![e],
    }
}

/// Removes the listed terms where they stand as an argument of an AND,
/// innermost ANDs first.
pub open spec fn suppress(e: ScalarExpr, ands: Seq<ScalarExpr>) -> ScalarExpr
    decreases e,
{
    match e {
        ScalarExpr::CallBinary { func: BinaryFunc::And, expr1, expr2 } => {
            let a = suppress(*expr1, ands);
            let b = suppress(*expr2, ands);
            if ands.contains(a) {
                b
            } else if ands.contains(b) {
                a
            } else {
                binary(BinaryFunc::And, a, b)
            }
        },
        _ => e,
    }
}

/// The distinct terms of `s0` that also occur in `s1`, each once, in the
/// order of their first occurrence in `s0`.
pub open spec fn shared_terms(s0: Seq<ScalarExpr>, s1: Seq<ScalarExpr>) -> Seq<ScalarExpr>
    decreases s0.len(),
{
    if s0.len() == 0 {
        Seq::empty()
    } else {
        let prev = shared_terms(s0.drop_last(), s1);
        if s1.contains(s0.last()) && !prev.contains(s0.last()) {
            prev.push(s0.last())
        } else {
            prev
        }
    }
}

/// `e AND t1 AND t2 ...`, nested to the left.
pub open spec fn and_all(e: ScalarExpr, terms: Seq<ScalarExpr>) -> ScalarExpr
    decreases terms.len(),
{
    if terms.len() == 0 {
        e
    } else {
        binary(BinaryFunc::And, and_all(e, terms.drop_last()), terms.last())
    }
}

/// One undistribution step: `(a AND b) OR (a AND c)` becomes
/// `(b OR c) AND a`.
pub open spec fn undistribute_node(e: ScalarExpr) -> ScalarExpr {
    match e {
        ScalarExpr::CallBinary { func: BinaryFunc::Or, expr1, expr2 } => {
            let shared = shared_terms(harvest(*expr1), harvest(*expr2));
            if shared.len() == 0 {
                e
            } else {
                and_all(
                    binary(BinaryFunc::Or, suppress(*expr1, shared), suppress(*expr2, shared)),
                    shared,
                )
            }
        },
        _ => e,
    }
}

/// Undistribution over a whole expression, innermost ORs first.
pub open spec fn undistribute_spec(e: ScalarExpr) -> ScalarExpr
    decreases e,
{
    match e {
        ScalarExpr::CallUnary { func, expr } => undistribute_node(
            ScalarExpr::CallUnary { func, expr: Box::new(undistribute_spec(*expr)) },
        ),
        ScalarExpr::CallBinary { func, expr1, expr2 } => undistribute_node(
            binary(func, undistribute_spec(*expr1), undistribute_spec(*expr2)),
        ),
        _ => e,
    }
}

/// Two evaluation outcomes agree: both fail, or both give the same value.
pub open spec fn same_outcome(x: Result<Datum, EvalError>, y: Result<Datum, EvalError>) -> bool {
    (x is Ok <==> y is Ok) && (x is Ok ==> x == y)
}

/// `(a AND b) OR (a AND c)` and `(b OR c) AND a` agree on every row under
/// three-valued logic, including rows where `a` is `Null`; when evaluation
/// fails, both fail.
pub proof fn lemma_undistribute_example(a: ScalarExpr, b: ScalarExpr, c: ScalarExpr, row: Seq<
    Datum,
>)
    ensures
        same_outcome(
            denote(
                binary(
                    BinaryFunc::Or,
                    binary(BinaryFunc::And, a, b),
                    binary(BinaryFunc::And, a, c),
                ),
                row,
            ),
            denote(binary(BinaryFunc::And, binary(BinaryFunc::Or, b, c), a), row),
        ),
{
    reveal_with_fuel(denote, 3);
}


/// Structural equality of expressions.
pub fn expr_eq(a: &ScalarExpr, b: &ScalarExpr) -> (r: bool)
    ensures
        r == (*a == *b),
    decreases *a,
{
    match (a, b) {
        (ScalarExpr::Column(i), ScalarExpr::Column(j)) => *i == *j,
        (ScalarExpr::Literal(x), ScalarExpr::Literal(y)) => *x == *y,
        (
            ScalarExpr::CallUnary { func: f, expr: e },
            ScalarExpr::CallUnary { func: g, expr: h },
        ) => *f == *g && expr_eq(e, h),
        (
            ScalarExpr::CallBinary { func: f, expr1: a1, expr2: a2 },
            ScalarExpr::CallBinary { func: g, expr1: b1, expr2: b2 },
        ) => *f == *g && expr_eq(a1, b1) && expr_eq(a2, b2),
        _ => false,
    }
}

fn contains_expr(v: &[ScalarExpr], e: &ScalarExpr) -> (r: bool)
    ensures
        r == v@.contains(*e),
{
    let mut i: usize = 0;
    while i < v.len()
        invariant
            i <= v.len(),
            forall|j: int| 0 <= j < i ==> v@[j] != *e,
        decreases v.len() - i,
    {
        if expr_eq(&v[i], e) {
            assert(v@[i as int] == *e);
            return true;
        }
        i = i + 1;
    }
    false
}

/// Appends the conjuncts of `expr` to `ands`.
pub fn harvest_ands(expr: &ScalarExpr, ands: &mut Vec<ScalarExpr>)
    ensures
        final(ands)@ == old(ands)@ + harvest(*expr),
    decreases *expr,
{
    match expr {
        ScalarExpr::CallBinary { func: BinaryFunc::And, expr1, expr2 } => {
            let ghost before = ands@;
            harvest_ands(expr1, ands);
            harvest_ands(expr2, ands);
            assert(ands@ =~= before + (harvest(**expr1) + harvest(**expr2)));
        },
        _ => {
            let ghost before = ands@;
            ands.push(expr.clone());
            assert(ands@ =~= before + seq![*expr]);
        },
    }
}

fn suppress_exec(e: ScalarExpr, ands: &[ScalarExpr]) -> (r: ScalarExpr)
    ensures
        r == suppress(e, ands@),
    decreases e,
{
    match e {
        ScalarExpr::CallBinary { func: BinaryFunc::And, expr1, expr2 } => {
            let a = suppress_exec(*expr1, ands);
            let b = suppress_exec(*expr2, ands);
            if contains_expr(ands, &a) {
                b
            } else if contains_expr(ands, &b) {
                a
            } else {
                ScalarExpr::CallBinary { func: BinaryFunc::And, expr1: Box::new(a), expr2: Box::new(b) }
            }
        },
        other => other,
    }
}

/// Removes the listed terms where they stand as an argument of an AND.
pub fn suppress_ands(expr: &mut ScalarExpr, ands: &[ScalarExpr])
    ensures
        *final(expr) == suppress(*old(expr), ands@),
{
    let e = take_scalar(expr);
    *expr = suppress_exec(e, ands);
}

/// AND undistribution at one node: `(a AND b) OR (a AND c)` becomes
/// `(b OR c) AND a`.
pub fn undistribute_and_helper(expr: &mut ScalarExpr)
    ensures
        *final(expr) == undistribute_node(*old(expr)),
{
    let e = take_scalar(expr);
    *expr = undistribute_node_exec(e);
}

fn undistribute_node_exec(e: ScalarExpr) -> (r: ScalarExpr)
    ensures
        r == undistribute_node(e),
{
    match e {
        ScalarExpr::CallBinary { func: BinaryFunc::Or, expr1, expr2 } => {
            let mut ands0: Vec<ScalarExpr> = Vec::new();
            harvest_ands(&expr1, &mut ands0);
            let mut ands1: Vec<ScalarExpr> = Vec::new();
            harvest_ands(&expr2, &mut ands1);
            assert(ands0@ =~= harvest(*expr1));
            assert(ands1@ =~= harvest(*expr2));
            let mut shared: Vec<ScalarExpr> = Vec::new();
            let mut i: usize = 0;
            assert(ands0@.take(0) =~= Seq::<ScalarExpr>::empty());
            while i < ands0.len()
                invariant
                    i <= ands0.len(),
                    shared@ == shared_terms(ands0@.take(i as int), ands1@),
                decreases ands0.len() - i,
            {
                assert(ands0@.take(i + 1).drop_last() =~= ands0@.take(i as int));
                if contains_expr(ands1.as_slice(), &ands0[i]) && !contains_expr(
                    shared.as_slice(),
                    &ands0[i],
                ) {
                    shared.push(ands0[i].clone());
                }
                i = i + 1;
            }
            assert(ands0@.take(i as int) =~= ands0@);
            if shared.len() == 0 {
                return ScalarExpr::CallBinary { func: BinaryFunc::Or, expr1, expr2 };
            }
            let a = suppress_exec(*expr1, shared.as_slice());
            let b = suppress_exec(*expr2, shared.as_slice());
            let mut out = ScalarExpr::CallBinary {
                func: BinaryFunc::Or,
                expr1: Box::new(a),
                expr2: Box::new(b),
            };
            let ghost base = out;
            let mut j: usize = 0;
            assert(shared@.take(0) =~= Seq::<ScalarExpr>::empty());
            while j < shared.len()
                invariant
                    j <= shared.len(),
                    out == and_all(base, shared@.take(j as int)),
                decreases shared.len() - j,
            {
                assert(shared@.take(j + 1).drop_last() =~= shared@.take(j as int));
                out = ScalarExpr::CallBinary {
                    func: BinaryFunc::And,
                    expr1: Box::new(out),
                    expr2: Box::new(shared[j].clone()),
                };
                j = j + 1;
            }
            assert(shared@.take(j as int) =~= shared@);
            out
        },
        other => other,
    }
}

fn undistribute_exec(e: ScalarExpr) -> (r: ScalarExpr)
    ensures
        r == undistribute_spec(e),
    decreases e,
{
    match e {
        ScalarExpr::CallUnary { func, expr } => {
            let inner = undistribute_exec(*expr);
            undistribute_node_exec(ScalarExpr::CallUnary { func, expr: Box::new(inner) })
        },
        ScalarExpr::CallBinary { func, expr1, expr2 } => {
            let a = undistribute_exec(*expr1);
            let b = undistribute_exec(*expr2);
            undistribute_node_exec(
                ScalarExpr::CallBinary { func, expr1: Box::new(a), expr2: Box::new(b) },
            )
        },
        other => other,
    }
}

/// Transforms `(a AND b) OR (a AND c)` into `(b OR c) AND a` throughout the
/// expression, innermost ORs first.
pub fn undistribute_and(expr: &mut ScalarExpr)
    ensures
        *final(expr) == undistribute_spec(*old(expr)),
        same_outcomes(*final(expr), *old(expr)),
{
    proof {
        lemma_undistribute_same_outcomes(*expr);
    }
    let e = take_scalar(expr);
    *expr = undistribute_exec(e);
}

} // verus!
