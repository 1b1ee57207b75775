use transform::boolean::{demorgans, harvest_ands, suppress_ands, undistribute_and, undistribute_and_helper};
use transform::predicates::{DeMorgans, UndistributeAnd};
use transform::relation::{RelationExpr, RelationType};
use transform::scalar::{BinaryFunc, Datum, ScalarExpr, UnaryFunc};

fn col(i: usize) -> ScalarExpr {
    ScalarExpr::Column(i)
}

fn bin(func: BinaryFunc, a: ScalarExpr, b: ScalarExpr) -> ScalarExpr {
    ScalarExpr::CallBinary { func, expr1: Box::new(a), expr2: Box::new(b) }
}

fn and(a: ScalarExpr, b: ScalarExpr) -> ScalarExpr {
    bin(BinaryFunc::And, a, b)
}

fn or(a: ScalarExpr, b: ScalarExpr) -> ScalarExpr {
    bin(BinaryFunc::Or, a, b)
}

fn not(a: ScalarExpr) -> ScalarExpr {
    ScalarExpr::CallUnary { func: UnaryFunc::Not, expr: Box::new(a) }
}

fn show(e: &ScalarExpr) -> String {
    format!("{:?}", e)
}

fn filter(preds: Vec<ScalarExpr>) -> RelationExpr {
    RelationExpr::Filter {
        input: Box::new(RelationExpr::Get { id: 1, typ: RelationType { arity: 3 } }),
        predicates: preds,
    }
}

fn predicates_of(r: &RelationExpr) -> Vec<ScalarExpr> {
    match r {
        RelationExpr::Filter { predicates, .. } => predicates.clone(),
        other => panic!("not a filter: {:?}", other),
    }
}

fn datums() -> Vec<Datum> {
    vec![Datum::True, Datum::False, Datum::Null, Datum::Int64(7)]
}

#[test]
fn demorgans_not_and_becomes_or_of_nots() {
    let mut e = not(and(col(0), col(1)));
    demorgans(&mut e);
    assert_eq!(show(&e), show(&or(not(col(0)), not(col(1)))));
}

#[test]
fn demorgans_not_or_becomes_and_of_nots() {
    let mut e = not(or(col(0), col(1)));
    demorgans(&mut e);
    assert_eq!(show(&e), show(&and(not(col(0)), not(col(1)))));
}

#[test]
fn demorgans_second_application_is_noop() {
    let mut e = not(and(col(0), col(1)));
    demorgans(&mut e);
    let once = show(&e);
    demorgans(&mut e);
    assert_eq!(show(&e), once);
}

#[test]
fn demorgans_leaves_other_shapes() {
    let mut e = not(bin(BinaryFunc::Eq, col(0), col(1)));
    let before = show(&e);
    demorgans(&mut e);
    assert_eq!(show(&e), before);
}

#[test]
fn demorgans_keeps_three_valued_results() {
    for a in datums() {
        for b in datums() {
            let row = vec![a, b];
            let orig = not(and(col(0), col(1)));
            let mut e = orig.clone();
            demorgans(&mut e);
            assert_eq!(e.eval(&row), orig.eval(&row));
            let orig = not(or(col(0), col(1)));
            let mut e = orig.clone();
            demorgans(&mut e);
            assert_eq!(e.eval(&row), orig.eval(&row));
        }
    }
}

#[test]
fn demorgans_transform_rewrites_filter_predicates() {
    let mut r = filter(vec![not(and(col(0), col(1))), col(2)]);
    let t = r.typ();
    DeMorgans.transform(&mut r, &t);
    let preds = predicates_of(&r);
    assert_eq!(show(&preds[0]), show(&or(not(col(0)), not(col(1)))));
    assert_eq!(show(&preds[1]), show(&col(2)));
}

#[test]
fn undistribute_factors_shared_conjunct() {
    let mut e = or(and(col(0), col(1)), and(col(0), col(2)));
    undistribute_and(&mut e);
    assert_eq!(show(&e), show(&and(or(col(1), col(2)), col(0))));
}

#[test]
fn undistribute_keeps_three_valued_results_including_null_a() {
    for a in datums() {
        for b in datums() {
            for c in datums() {
                let row = vec![a, b, c];
                let orig = or(and(col(0), col(1)), and(col(0), col(2)));
                let mut e = orig.clone();
                undistribute_and(&mut e);
                assert_eq!(e.eval(&row), orig.eval(&row));
            }
        }
    }
}

#[test]
fn undistribute_without_shared_terms_is_unchanged() {
    let mut e = or(and(col(0), col(1)), and(col(2), col(1)));
    undistribute_and(&mut e);
    // Column 1 is shared.
    assert_eq!(show(&e), show(&and(or(col(0), col(2)), col(1))));
    let mut e = or(and(col(0), col(1)), col(2));
    let before = show(&e);
    undistribute_and(&mut e);
    assert_eq!(show(&e), before);
}

#[test]
fn undistribute_uses_structural_equality_only() {
    // NOT NOT a is not recognized as a.
    let mut e = or(and(col(0), col(1)), and(not(not(col(0))), col(2)));
    let before = show(&e);
    undistribute_and(&mut e);
    assert_eq!(show(&e), before);
}

#[test]
fn undistribute_innermost_first() {
    let inner = or(and(col(0), col(1)), and(col(0), col(2)));
    let mut e = not(inner);
    undistribute_and(&mut e);
    assert_eq!(show(&e), show(&not(and(or(col(1), col(2)), col(0)))));
}

#[test]
fn harvest_flattens_nested_ands() {
    let e = and(and(col(0), col(1)), and(col(2), or(col(0), col(1))));
    let mut ands = Vec::new();
    harvest_ands(&e, &mut ands);
    let got: Vec<String> = ands.iter().map(show).collect();
    let want: Vec<String> = vec![col(0), col(1), col(2), or(col(0), col(1))].iter().map(show).collect();
    assert_eq!(got, want);
}

#[test]
fn suppress_removes_listed_conjuncts() {
    let mut e = and(and(col(0), col(1)), col(2));
    suppress_ands(&mut e, &[col(1)]);
    assert_eq!(show(&e), show(&and(col(0), col(2))));
}

#[test]
fn helper_acts_on_top_only() {
    let mut e = not(or(and(col(0), col(1)), and(col(0), col(2))));
    let before = show(&e);
    undistribute_and_helper(&mut e);
    assert_eq!(show(&e), before);
}

#[test]
fn undistribute_transform_rewrites_filter_predicates() {
    let mut r = filter(vec![or(and(col(0), col(1)), and(col(0), col(2)))]);
    let t = r.typ();
    UndistributeAnd.transform(&mut r, &t);
    let preds = predicates_of(&r);
    assert_eq!(show(&preds[0]), show(&and(or(col(1), col(2)), col(0))));
}

#[test]
fn undistribute_action_on_non_filter_is_noop() {
    let mut r = RelationExpr::Get { id: 4, typ: RelationType { arity: 1 } };
    let t = r.typ();
    UndistributeAnd.action(&mut r, &t);
    assert!(matches!(r, RelationExpr::Get { id: 4, .. }));
    DeMorgans.action(&mut r, &t);
    assert!(matches!(r, RelationExpr::Get { id: 4, .. }));
}

#[test]
fn demorgans_rewrites_below_the_root() {
    let mut e = or(not(and(col(0), col(1))), col(2));
    demorgans(&mut e);
    assert_eq!(show(&e), show(&or(or(not(col(0)), not(col(1))), col(2))));
}

#[test]
fn demorgans_pushes_created_negations_further() {
    // NOT(c0 AND NOT(c1 OR c2)): the inner NOT(c1 OR c2) is reached through
    // the negation the first step creates.
    let mut e = not(and(col(0), not(or(col(1), col(2)))));
    demorgans(&mut e);
    assert_eq!(show(&e), show(&or(not(col(0)), not(and(not(col(1)), not(col(2)))))));
}

#[test]
fn demorgans_pass_over_nested_chain_is_not_always_a_fixpoint() {
    let mut e = not(and(col(0), not(or(col(1), col(2)))));
    demorgans(&mut e);
    let once = show(&e);
    demorgans(&mut e);
    assert_ne!(show(&e), once);
    let twice = show(&e);
    demorgans(&mut e);
    assert_eq!(show(&e), twice);
}

#[test]
fn undistribute_factors_each_shared_term_once() {
    let mut e = or(and(col(0), col(0)), col(0));
    undistribute_and(&mut e);
    assert_eq!(show(&e), show(&and(or(col(0), col(0)), col(0))));
}

#[test]
fn undistribute_keeps_order_of_shared_terms() {
    let mut e = or(and(and(col(0), col(1)), col(2)), and(col(1), and(col(0), col(3))));
    undistribute_and(&mut e);
    assert_eq!(show(&e), show(&and(and(or(col(2), col(3)), col(0)), col(1))));
}
