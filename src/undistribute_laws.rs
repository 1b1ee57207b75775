//! AND undistribution keeps the value of a predicate on every row: both
//! forms give the same value, or both fail.
use vstd::prelude::*;
use crate::scalar::{Datum, ScalarExpr, BinaryFunc, denote, and3, or3};
use crate::boolean::{
    binary, harvest, suppress, shared_terms, and_all, undistribute_node, undistribute_spec,
};

verus! {

/// The value of `e` on `row`, or `None` when evaluation fails.
pub open spec fn outcome(e: ScalarExpr, row: Seq<Datum>) -> Option<Datum> {
    match denote(e, row) {
        Ok(d) => Some(d),
        Err(_) => None,
    }
}

/// Two expressions have the same outcome on every row.
pub open spec fn same_outcomes(a: ScalarExpr, b: ScalarExpr) -> bool {
    forall|row: Seq<Datum>| #[trigger] outcome(a, row) == outcome(b, row)
}

/// A value as three-valued logic reads it: anything but `True` and `False`
/// counts as `Null`.
spec fn truth(d: Datum) -> Datum {
    match d {
        Datum::True => Datum::True,
        Datum::False => Datum::False,
        _ => Datum::Null,
    }
}

spec fn w(e: ScalarExpr, row: Seq<Datum>) -> Option<Datum> {
    match outcome(e, row) {
        Some(d) => Some(truth(d)),
        None => None,
    }
}

spec fn and_w(x: Option<Datum>, y: Option<Datum>) -> Option<Datum> {
    match (x, y) {
        (Some(a), Some(b)) => Some(and3(a, b)),
        _ => None,
    }
}

spec fn or_w(x: Option<Datum>, y: Option<Datum>) -> Option<Datum> {
    match (x, y) {
        (Some(a), Some(b)) => Some(or3(a, b)),
        _ => None,
    }
}

spec fn normal(x: Option<Datum>) -> bool {
    match x {
        Some(d) => d == Datum::True || d == Datum::False || d == Datum::Null,
        None => true,
    }
}

spec fn conj_w(s: Seq<ScalarExpr>, row: Seq<Datum>) -> Option<Datum>
    decreases s.len(),
{
    if s.len() == 0 {
        Some(Datum::True)
    } else {
        and_w(conj_w(s.drop_last(), row), w(s.last(), row))
    }
}

proof fn lemma_and_facts(x: Option<Datum>, y: Option<Datum>, z: Option<Datum>)
    ensures
        and_w(and_w(x, y), z) == and_w(x, and_w(y, z)),
        and_w(x, y) == and_w(y, x),
        normal(x) ==> and_w(x, x) == x,
        normal(x) ==> and_w(x, Some(Datum::True)) == x,
        normal(and_w(x, y)),
        or_w(and_w(x, z), and_w(y, z)) == and_w(or_w(x, y), z),
{
}

proof fn lemma_w_normal(e: ScalarExpr, row: Seq<Datum>)
    ensures
        normal(w(e, row)),
{
}

proof fn lemma_w_binary(f: BinaryFunc, a: ScalarExpr, b: ScalarExpr, row: Seq<Datum>)
    requires
        f == BinaryFunc::And || f == BinaryFunc::Or,
    ensures
        f == BinaryFunc::And ==> w(binary(f, a, b), row) == and_w(w(a, row), w(b, row)),
        f == BinaryFunc::Or ==> w(binary(f, a, b), row) == or_w(w(a, row), w(b, row)),
        outcome(binary(f, a, b), row) == w(binary(f, a, b), row),
{
    assert(denote(binary(f, a, b), row) == match denote(a, row) {
        Ok(x) => match denote(b, row) {
            Ok(y) => crate::scalar::apply_binary(f, x, y),
            Err(err) => Err(err),
        },
        Err(err) => Err(err),
    });
}

proof fn lemma_conj_concat(a: Seq<ScalarExpr>, b: Seq<ScalarExpr>, row: Seq<Datum>)
    ensures
        conj_w(a + b, row) == and_w(conj_w(a, row), conj_w(b, row)),
    decreases b.len(),
{
    if b.len() == 0 {
        assert(a + b =~= a);
        lemma_conj_normal(a, row);
        lemma_and_facts(conj_w(a, row), conj_w(a, row), conj_w(a, row));
    } else {
        assert((a + b).drop_last() =~= a + b.drop_last());
        assert((a + b).last() == b.last());
        lemma_conj_concat(a, b.drop_last(), row);
        lemma_and_facts(conj_w(a, row), conj_w(b.drop_last(), row), w(b.last(), row));
    }
}

proof fn lemma_conj_normal(s: Seq<ScalarExpr>, row: Seq<Datum>)
    ensures
        normal(conj_w(s, row)),
    decreases s.len(),
{
    if s.len() > 0 {
        lemma_conj_normal(s.drop_last(), row);
        lemma_and_facts(conj_w(s.drop_last(), row), w(s.last(), row), None);
    }
}

/// An expression is the conjunction of its harvested conjuncts.
proof fn lemma_harvest(e: ScalarExpr, row: Seq<Datum>)
    ensures
        w(e, row) == conj_w(harvest(e), row),
    decreases e,
{
    match e {
        ScalarExpr::CallBinary { func: BinaryFunc::And, expr1, expr2 } => {
            lemma_harvest(*expr1, row);
            lemma_harvest(*expr2, row);
            lemma_conj_concat(harvest(*expr1), harvest(*expr2), row);
            lemma_w_binary(BinaryFunc::And, *expr1, *expr2, row);
            assert(e == binary(BinaryFunc::And, *expr1, *expr2));
            assert(harvest(e) == harvest(*expr1) + harvest(*expr2));
            assert(w(e, row) == and_w(w(*expr1, row), w(*expr2, row)));
        },
        _ => {
            assert(seq![e].drop_last() =~= Seq::<ScalarExpr>::empty());
            assert(seq![e].last() == e);
            assert(conj_w(seq![e].drop_last(), row) == Some(Datum::True));
            lemma_w_normal(e, row);
            lemma_and_facts(w(e, row), Some(Datum::True), None);
            assert(harvest(e) == seq![e]);
            assert(conj_w(seq![e], row) == and_w(Some(Datum::True), w(e, row)));
        },
    }
}

proof fn lemma_conj_member(s: Seq<ScalarExpr>, t: ScalarExpr, row: Seq<Datum>)
    requires
        s.contains(t),
    ensures
        and_w(conj_w(s, row), w(t, row)) == conj_w(s, row),
    decreases s.len(),
{
    let p = s.drop_last();
    let x = s.last();
    lemma_w_normal(x, row);
    lemma_conj_normal(p, row);
    if x == t {
        lemma_and_facts(conj_w(p, row), w(x, row), w(x, row));
        lemma_and_facts(w(x, row), w(x, row), w(x, row));
    } else {
        let k = choose|k: int| 0 <= k < s.len() && s[k] == t;
        assert(k < s.len() - 1);
        assert(p[k] == t);
        lemma_conj_member(p, t, row);
        lemma_and_facts(conj_w(p, row), w(x, row), w(t, row));
        lemma_and_facts(conj_w(p, row), w(t, row), w(x, row));
        lemma_and_facts(w(x, row), w(t, row), None);
    }
}

proof fn lemma_conj_subset(r: Seq<ScalarExpr>, s: Seq<ScalarExpr>, row: Seq<Datum>)
    requires
        forall|i: int| 0 <= i < r.len() ==> s.contains(#[trigger] r[i]),
    ensures
        and_w(conj_w(r, row), conj_w(s, row)) == conj_w(s, row),
    decreases r.len(),
{
    lemma_conj_normal(s, row);
    if r.len() == 0 {
        lemma_and_facts(conj_w(s, row), Some(Datum::True), None);
    } else {
        let p = r.drop_last();
        let x = r.last();
        assert forall|i: int| 0 <= i < p.len() implies s.contains(#[trigger] p[i]) by {
            assert(p[i] == r[i]);
        }
        assert(s.contains(r[r.len() - 1]));
        lemma_conj_subset(p, s, row);
        lemma_conj_member(s, x, row);
        lemma_and_facts(conj_w(p, row), w(x, row), conj_w(s, row));
        lemma_and_facts(w(x, row), conj_w(s, row), None);
    }
}

/// Suppressing listed terms takes away a conjunction of some of them.
proof fn lemma_suppress(e: ScalarExpr, s: Seq<ScalarExpr>, row: Seq<Datum>) -> (r: Seq<ScalarExpr>)
    ensures
        forall|i: int| 0 <= i < r.len() ==> s.contains(#[trigger] r[i]),
        w(e, row) == and_w(w(suppress(e, s), row), conj_w(r, row)),
    decreases e,
{
    match e {
        ScalarExpr::CallBinary { func: BinaryFunc::And, expr1, expr2 } => {
            let a = suppress(*expr1, s);
            let b = suppress(*expr2, s);
            let ra = lemma_suppress(*expr1, s, row);
            let rb = lemma_suppress(*expr2, s, row);
            lemma_w_binary(BinaryFunc::And, *expr1, *expr2, row);
            lemma_conj_concat(ra, rb, row);
            let (x1, x2, x3, x4) = (w(a, row), conj_w(ra, row), w(b, row), conj_w(rb, row));
            lemma_w_normal(a, row);
            lemma_w_normal(b, row);
            lemma_conj_normal(ra, row);
            lemma_conj_normal(rb, row);
            if s.contains(a) {
                let r = (ra + rb).push(a);
                assert(r.drop_last() =~= ra + rb);
                assert forall|i: int| 0 <= i < r.len() implies s.contains(#[trigger] r[i]) by {
                    if i < ra.len() {
                        assert(r[i] == ra[i]);
                    } else if i < ra.len() + rb.len() {
                        assert(r[i] == rb[i - ra.len()]);
                    }
                }
                assert(and_w(and_w(x1, x2), and_w(x3, x4)) == and_w(x3, and_w(and_w(x2, x4), x1)));
                r
            } else if s.contains(b) {
                let r = (ra + rb).push(b);
                assert(r.drop_last() =~= ra + rb);
                assert forall|i: int| 0 <= i < r.len() implies s.contains(#[trigger] r[i]) by {
                    if i < ra.len() {
                        assert(r[i] == ra[i]);
                    } else if i < ra.len() + rb.len() {
                        assert(r[i] == rb[i - ra.len()]);
                    }
                }
                assert(and_w(and_w(x1, x2), and_w(x3, x4)) == and_w(x1, and_w(and_w(x2, x4), x3)));
                r
            } else {
                let r = ra + rb;
                lemma_w_binary(BinaryFunc::And, a, b, row);
                assert forall|i: int| 0 <= i < r.len() implies s.contains(#[trigger] r[i]) by {
                    if i < ra.len() {
                        assert(r[i] == ra[i]);
                    } else {
                        assert(r[i] == rb[i - ra.len()]);
                    }
                }
                assert(and_w(and_w(x1, x2), and_w(x3, x4)) == and_w(and_w(x1, x3), and_w(x2, x4)));
                r
            }
        },
        _ => {
            lemma_w_normal(e, row);
            lemma_and_facts(w(e, row), Some(Datum::True), None);
            Seq::empty()
        },
    }
}

proof fn lemma_and_all(e: ScalarExpr, s: Seq<ScalarExpr>, row: Seq<Datum>)
    ensures
        w(and_all(e, s), row) == and_w(w(e, row), conj_w(s, row)),
        s.len() > 0 ==> outcome(and_all(e, s), row) == w(and_all(e, s), row),
    decreases s.len(),
{
    if s.len() == 0 {
        lemma_w_normal(e, row);
        lemma_and_facts(w(e, row), Some(Datum::True), None);
    } else {
        lemma_and_all(e, s.drop_last(), row);
        lemma_w_binary(BinaryFunc::And, and_all(e, s.drop_last()), s.last(), row);
        lemma_and_facts(w(e, row), conj_w(s.drop_last(), row), w(s.last(), row));
    }
}

proof fn lemma_shared_terms(a: Seq<ScalarExpr>, b: Seq<ScalarExpr>)
    ensures
        forall|i: int|
            0 <= i < shared_terms(a, b).len() ==> a.contains(#[trigger] shared_terms(a, b)[i])
                && b.contains(shared_terms(a, b)[i]),
    decreases a.len(),
{
    if a.len() > 0 {
        lemma_shared_terms(a.drop_last(), b);
        let prev = shared_terms(a.drop_last(), b);
        let sh = shared_terms(a, b);
        assert forall|i: int| 0 <= i < sh.len() implies a.contains(#[trigger] sh[i]) && b.contains(sh[i]) by {
            if i < prev.len() {
                assert(sh[i] == prev[i]);
                let k = choose|k: int| 0 <= k < a.drop_last().len() && a.drop_last()[k] == prev[i];
                assert(a[k] == prev[i]);
            } else {
                assert(sh[i] == a.last());
                assert(a[a.len() - 1] == a.last());
            }
        }
    }
}

/// Every term of `s` is a conjunct of `e`, so conjoining them to `e` changes
/// nothing.
proof fn lemma_absorb(e: ScalarExpr, s: Seq<ScalarExpr>, row: Seq<Datum>)
    requires
        forall|i: int| 0 <= i < s.len() ==> harvest(e).contains(#[trigger] s[i]),
    ensures
        and_w(w(e, row), conj_w(s, row)) == w(e, row),
{
    lemma_harvest(e, row);
    lemma_conj_subset(s, harvest(e), row);
    lemma_and_facts(conj_w(s, row), conj_w(harvest(e), row), None);
}

/// One undistribution step keeps the outcome of an expression on every row.
pub proof fn lemma_undistribute_node(e: ScalarExpr)
    ensures
        same_outcomes(undistribute_node(e), e),
{
    assert forall|row: Seq<Datum>| #[trigger] outcome(undistribute_node(e), row) == outcome(e, row) by {
        match e {
            ScalarExpr::CallBinary { func: BinaryFunc::Or, expr1, expr2 } => {
                let l = *expr1;
                let r = *expr2;
                let s = shared_terms(harvest(l), harvest(r));
                if s.len() > 0 {
                    lemma_shared_terms(harvest(l), harvest(r));
                    let ls = suppress(l, s);
                    let rs = suppress(r, s);
                    let rl = lemma_suppress(l, s, row);
                    let rr = lemma_suppress(r, s, row);
                    lemma_absorb(l, s, row);
                    lemma_absorb(r, s, row);
                    lemma_conj_subset(rl, s, row);
                    lemma_conj_subset(rr, s, row);
                    let c = conj_w(s, row);
                    lemma_and_facts(w(ls, row), conj_w(rl, row), c);
                    lemma_and_facts(w(rs, row), conj_w(rr, row), c);
                    lemma_and_facts(w(ls, row), w(rs, row), c);
                    lemma_and_all(binary(BinaryFunc::Or, ls, rs), s, row);
                    lemma_w_binary(BinaryFunc::Or, ls, rs, row);
                    lemma_w_binary(BinaryFunc::Or, l, r, row);
                    assert(e == binary(BinaryFunc::Or, l, r));
                }
            },
            _ => {},
        }
    }
}

proof fn lemma_congruence(e: ScalarExpr, e2: ScalarExpr)
    requires
        match (e, e2) {
            (ScalarExpr::CallUnary { func: f, expr: a }, ScalarExpr::CallUnary { func: g, expr: b }) =>
                f == g && same_outcomes(*a, *b),
            (
                ScalarExpr::CallBinary { func: f, expr1: a1, expr2: a2 },
                ScalarExpr::CallBinary { func: g, expr1: b1, expr2: b2 },
            ) => f == g && same_outcomes(*a1, *b1) && same_outcomes(*a2, *b2),
            _ => e == e2,
        },
    ensures
        same_outcomes(e, e2),
{
    assert forall|row: Seq<Datum>| #[trigger] outcome(e, row) == outcome(e2, row) by {
        match (e, e2) {
            (ScalarExpr::CallUnary { func: f, expr: a }, ScalarExpr::CallUnary { func: g, expr: b }) => {
                assert(outcome(*a, row) == outcome(*b, row));
            },
            (
                ScalarExpr::CallBinary { func: f, expr1: a1, expr2: a2 },
                ScalarExpr::CallBinary { func: g, expr1: b1, expr2: b2 },
            ) => {
                assert(outcome(*a1, row) == outcome(*b1, row));
                assert(outcome(*a2, row) == outcome(*b2, row));
            },
            _ => {},
        }
    }
}

/// AND undistribution over a whole expression keeps its outcome on every
/// row: the same value, or a failure in both.
pub proof fn lemma_undistribute_same_outcomes(e: ScalarExpr)
    ensures
        same_outcomes(undistribute_spec(e), e),
    decreases e,
{
    match e {
        ScalarExpr::CallUnary { func, expr } => {
            lemma_undistribute_same_outcomes(*expr);
            let mid = ScalarExpr::CallUnary { func, expr: Box::new(undistribute_spec(*expr)) };
            lemma_congruence(mid, e);
            lemma_undistribute_node(mid);
            assert forall|row: Seq<Datum>| #[trigger] outcome(undistribute_spec(e), row) == outcome(e, row) by {
                assert(outcome(undistribute_node(mid), row) == outcome(mid, row));
                assert(outcome(mid, row) == outcome(e, row));
            }
        },
        ScalarExpr::CallBinary { func, expr1, expr2 } => {
            lemma_undistribute_same_outcomes(*expr1);
            lemma_undistribute_same_outcomes(*expr2);
            let mid = binary(func, undistribute_spec(*expr1), undistribute_spec(*expr2));
            lemma_congruence(mid, e);
            lemma_undistribute_node(mid);
            assert forall|row: Seq<Datum>| #[trigger] outcome(undistribute_spec(e), row) == outcome(e, row) by {
                assert(outcome(undistribute_node(mid), row) == outcome(mid, row));
                assert(outcome(mid, row) == outcome(e, row));
            }
        },
        _ => {},
    }
}

} // verus!
