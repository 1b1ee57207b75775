use transform::fold::FoldConstants;
use transform::relation::{AggregateExpr, AggregateFunc, RelationExpr, RelationType};
use transform::scalar::{BinaryFunc, Datum, EvalError, ScalarExpr, UnaryFunc};

fn typ(arity: usize) -> RelationType {
    RelationType { arity }
}

fn i64d(x: i64) -> Datum {
    Datum::Int64(x)
}

fn constant(rows: Vec<Vec<Datum>>, arity: usize) -> RelationExpr {
    RelationExpr::Constant { rows, typ: typ(arity) }
}

fn get(id: u64, arity: usize) -> RelationExpr {
    RelationExpr::Get { id, typ: typ(arity) }
}

fn lit(d: Datum) -> ScalarExpr {
    ScalarExpr::Literal(d)
}

fn col(i: usize) -> ScalarExpr {
    ScalarExpr::Column(i)
}

fn bin(func: BinaryFunc, a: ScalarExpr, b: ScalarExpr) -> ScalarExpr {
    ScalarExpr::CallBinary { func, expr1: Box::new(a), expr2: Box::new(b) }
}

fn fold(mut r: RelationExpr) -> RelationExpr {
    let t = r.typ();
    FoldConstants.transform(&mut r, &t);
    r
}

fn show(r: &RelationExpr) -> String {
    format!("{:?}", r)
}

fn rows_of(r: &RelationExpr) -> Vec<Vec<Datum>> {
    match r {
        RelationExpr::Constant { rows, .. } => rows.clone(),
        other => panic!("not a constant: {:?}", other),
    }
}

#[test]
fn union_of_constants_concatenates_left_then_right() {
    let plan = RelationExpr::Union {
        left: Box::new(constant(vec![vec![i64d(1)], vec![i64d(2)]], 1)),
        right: Box::new(constant(vec![vec![i64d(3)]], 1)),
    };
    let out = fold(plan);
    assert_eq!(show(&out), show(&constant(vec![vec![i64d(1)], vec![i64d(2)], vec![i64d(3)]], 1)));
}

#[test]
fn union_with_empty_side_collapses_to_other_side() {
    let plan = RelationExpr::Union {
        left: Box::new(constant(vec![], 2)),
        right: Box::new(get(7, 2)),
    };
    assert_eq!(show(&fold(plan)), show(&get(7, 2)));
    let plan = RelationExpr::Union {
        left: Box::new(get(7, 2)),
        right: Box::new(constant(vec![], 2)),
    };
    assert_eq!(show(&fold(plan)), show(&get(7, 2)));
}

#[test]
fn union_of_non_constants_is_kept() {
    let plan = RelationExpr::Union { left: Box::new(get(1, 1)), right: Box::new(get(2, 1)) };
    let before = show(&plan);
    assert_eq!(show(&fold(plan)), before);
}

#[test]
fn reduce_counts_per_key_in_first_appearance_order() {
    // Rows [1, "a"], [1, "b"], [2, "c"]: the second column stands for the
    // strings by distinct integers.
    let input = constant(vec![vec![i64d(1), i64d(97)], vec![i64d(1), i64d(98)], vec![i64d(2), i64d(99)]], 2);
    let plan = RelationExpr::Reduce {
        input: Box::new(input),
        group_key: vec![0],
        aggregates: vec![AggregateExpr { func: AggregateFunc::Count, expr: col(1) }],
    };
    let out = fold(plan);
    assert_eq!(rows_of(&out), vec![vec![i64d(1), i64d(2)], vec![i64d(2), i64d(1)]]);
    assert_eq!(out.typ(), typ(2));
}

#[test]
fn reduce_groups_follow_first_appearance_not_sorted_order() {
    let input = constant(vec![vec![i64d(5)], vec![i64d(3)], vec![i64d(5)]], 1);
    let plan = RelationExpr::Reduce {
        input: Box::new(input),
        group_key: vec![0],
        aggregates: vec![AggregateExpr { func: AggregateFunc::SumInt64, expr: col(0) }],
    };
    assert_eq!(rows_of(&fold(plan)), vec![vec![i64d(5), i64d(10)], vec![i64d(3), i64d(3)]]);
}

#[test]
fn reduce_over_empty_input_has_no_groups() {
    let plan = RelationExpr::Reduce {
        input: Box::new(constant(vec![], 1)),
        group_key: vec![],
        aggregates: vec![AggregateExpr { func: AggregateFunc::Count, expr: col(0) }],
    };
    let out = fold(plan);
    assert_eq!(rows_of(&out), Vec::<Vec<Datum>>::new());
    assert_eq!(out.typ(), typ(1));
}

#[test]
fn reduce_count_skips_nulls_and_sum_of_nothing_is_null() {
    let input = constant(vec![vec![i64d(1), Datum::Null], vec![i64d(1), Datum::Null]], 2);
    let plan = RelationExpr::Reduce {
        input: Box::new(input),
        group_key: vec![0],
        aggregates: vec![
            AggregateExpr { func: AggregateFunc::Count, expr: col(1) },
            AggregateExpr { func: AggregateFunc::SumInt64, expr: col(1) },
        ],
    };
    assert_eq!(rows_of(&fold(plan)), vec![vec![i64d(1), i64d(0), Datum::Null]]);
}

#[test]
fn reduce_with_overflowing_sum_is_not_folded() {
    let input = constant(vec![vec![i64d(i64::MAX)], vec![i64d(1)]], 1);
    let plan = RelationExpr::Reduce {
        input: Box::new(input),
        group_key: vec![],
        aggregates: vec![AggregateExpr { func: AggregateFunc::SumInt64, expr: col(0) }],
    };
    let before = show(&plan);
    assert_eq!(show(&fold(plan)), before);
}

#[test]
fn join_with_empty_input_is_empty() {
    let plan = RelationExpr::Join { inputs: vec![constant(vec![], 1), get(3, 2)] };
    assert_eq!(show(&fold(plan)), show(&constant(vec![], 3)));
}

#[test]
fn join_without_empty_input_is_kept() {
    let plan = RelationExpr::Join { inputs: vec![constant(vec![vec![i64d(1)]], 1), get(3, 2)] };
    let before = show(&plan);
    assert_eq!(show(&fold(plan)), before);
}

#[test]
fn join_with_input_that_folds_to_empty_is_empty() {
    let empty_filter = RelationExpr::Filter {
        input: Box::new(constant(vec![vec![i64d(1)]], 1)),
        predicates: vec![bin(BinaryFunc::Lt, col(0), lit(i64d(0)))],
    };
    let plan = RelationExpr::Join { inputs: vec![get(3, 2), empty_filter] };
    assert_eq!(show(&fold(plan)), show(&constant(vec![], 3)));
}

#[test]
fn filter_with_false_predicate_is_empty() {
    let plan = RelationExpr::Filter {
        input: Box::new(constant(vec![vec![i64d(1)], vec![i64d(2)]], 1)),
        predicates: vec![lit(Datum::True), lit(Datum::False)],
    };
    assert_eq!(show(&fold(plan)), show(&constant(vec![], 1)));
}

#[test]
fn filter_with_null_predicate_over_non_constant_is_empty() {
    let plan = RelationExpr::Filter {
        input: Box::new(get(1, 2)),
        predicates: vec![col(0), lit(Datum::Null)],
    };
    assert_eq!(show(&fold(plan)), show(&constant(vec![], 2)));
}

#[test]
fn filter_drops_true_predicates_and_folds_calls() {
    let plan = RelationExpr::Filter {
        input: Box::new(get(1, 1)),
        predicates: vec![
            lit(Datum::True),
            bin(BinaryFunc::Eq, col(0), bin(BinaryFunc::AddInt64, lit(i64d(1)), lit(i64d(2)))),
        ],
    };
    let expected = RelationExpr::Filter {
        input: Box::new(get(1, 1)),
        predicates: vec![bin(BinaryFunc::Eq, col(0), lit(i64d(3)))],
    };
    assert_eq!(show(&fold(plan)), show(&expected));
}

#[test]
fn filter_over_constant_keeps_rows_where_all_predicates_are_true() {
    let plan = RelationExpr::Filter {
        input: Box::new(constant(vec![vec![i64d(1)], vec![Datum::Null], vec![i64d(5)]], 1)),
        predicates: vec![bin(BinaryFunc::Lt, col(0), lit(i64d(3)))],
    };
    assert_eq!(rows_of(&fold(plan)), vec![vec![i64d(1)]]);
}

#[test]
fn filter_whose_predicate_fails_on_a_row_is_not_folded() {
    let plan = RelationExpr::Filter {
        input: Box::new(constant(vec![vec![i64d(i64::MAX)]], 1)),
        predicates: vec![bin(BinaryFunc::Lt, bin(BinaryFunc::AddInt64, col(0), lit(i64d(1))), lit(i64d(0)))],
    };
    let out = fold(plan);
    assert!(matches!(out, RelationExpr::Filter { .. }));
}

#[test]
fn map_appends_values_left_to_right() {
    let plan = RelationExpr::MapScalars {
        input: Box::new(constant(vec![vec![i64d(1)], vec![i64d(10)]], 1)),
        scalars: vec![
            bin(BinaryFunc::AddInt64, col(0), lit(i64d(1))),
            bin(BinaryFunc::AddInt64, col(1), col(0)),
        ],
    };
    let out = fold(plan);
    assert_eq!(rows_of(&out), vec![vec![i64d(1), i64d(2), i64d(3)], vec![i64d(10), i64d(11), i64d(21)]]);
    assert_eq!(out.typ(), typ(3));
}

#[test]
fn project_selects_reorders_and_duplicates_columns() {
    let plan = RelationExpr::Project {
        input: Box::new(constant(vec![vec![i64d(1), i64d(2)]], 2)),
        outputs: vec![1, 0, 1],
    };
    assert_eq!(rows_of(&fold(plan)), vec![vec![i64d(2), i64d(1), i64d(2)]]);
}

#[test]
fn threshold_of_constant_is_elided() {
    let c = constant(vec![vec![i64d(4)]], 1);
    let plan = RelationExpr::Threshold { input: Box::new(constant(vec![vec![i64d(4)]], 1)) };
    assert_eq!(show(&fold(plan)), show(&c));
}

#[test]
fn negate_topk_let_and_get_are_unchanged() {
    let plans = vec![
        RelationExpr::Negate { input: Box::new(constant(vec![vec![i64d(1)]], 1)) },
        RelationExpr::TopK {
            input: Box::new(constant(vec![vec![i64d(1)]], 1)),
            group_key: vec![],
            order_key: vec![0],
            limit: Some(1),
        },
        RelationExpr::Let {
            id: 1,
            value: Box::new(get(2, 1)),
            body: Box::new(get(1, 1)),
        },
        get(9, 4),
    ];
    for plan in plans {
        let before = show(&plan);
        assert_eq!(show(&fold(plan)), before);
    }
}

#[test]
fn nested_plan_folds_bottom_up() {
    // Project(Filter(Map(Constant))) folds all the way to a constant.
    let plan = RelationExpr::Project {
        input: Box::new(RelationExpr::Filter {
            input: Box::new(RelationExpr::MapScalars {
                input: Box::new(constant(vec![vec![i64d(1)], vec![i64d(2)], vec![i64d(3)]], 1)),
                scalars: vec![bin(BinaryFunc::AddInt64, col(0), col(0))],
            }),
            predicates: vec![bin(BinaryFunc::Lt, lit(i64d(2)), col(1))],
        }),
        outputs: vec![1],
    };
    assert_eq!(rows_of(&fold(plan)), vec![vec![i64d(4)], vec![i64d(6)]]);
}

fn sample_plan() -> RelationExpr {
    RelationExpr::Union {
        left: Box::new(RelationExpr::Filter {
            input: Box::new(get(1, 1)),
            predicates: vec![
                lit(Datum::True),
                ScalarExpr::CallUnary {
                    func: UnaryFunc::Not,
                    expr: Box::new(bin(BinaryFunc::Lt, col(0), lit(i64d(0)))),
                },
            ],
        }),
        right: Box::new(RelationExpr::Threshold {
            input: Box::new(constant(vec![vec![i64d(8)]], 1)),
        }),
    }
}

#[test]
fn folding_twice_equals_folding_once() {
    let once = fold(sample_plan());
    let twice = fold(fold(sample_plan()));
    assert_eq!(show(&once), show(&twice));
}

#[test]
fn folded_constant_matches_direct_evaluation() {
    // Filter(x < 3) over Union of two constants: evaluating by hand gives 1, 2.
    let plan = RelationExpr::Filter {
        input: Box::new(RelationExpr::Union {
            left: Box::new(constant(vec![vec![i64d(1)], vec![i64d(4)]], 1)),
            right: Box::new(constant(vec![vec![i64d(2)]], 1)),
        }),
        predicates: vec![bin(BinaryFunc::Lt, col(0), lit(i64d(3)))],
    };
    assert_eq!(rows_of(&fold(plan)), vec![vec![i64d(1)], vec![i64d(2)]]);
}

#[test]
fn action_folds_one_node_only() {
    let mut r = RelationExpr::Threshold {
        input: Box::new(RelationExpr::Threshold { input: Box::new(constant(vec![vec![i64d(1)]], 1)) }),
    };
    let t = r.typ();
    FoldConstants.action(&mut r, &t);
    assert!(matches!(r, RelationExpr::Threshold { .. }));
}

#[test]
fn scalar_reduce_folds_literal_calls() {
    let mut e = bin(BinaryFunc::And, lit(Datum::True), bin(BinaryFunc::Eq, lit(i64d(1)), lit(i64d(1))));
    e.reduce();
    assert_eq!(format!("{:?}", e), format!("{:?}", lit(Datum::True)));
}

#[test]
fn scalar_reduce_leaves_failing_calls() {
    let mut e = ScalarExpr::CallUnary { func: UnaryFunc::NegInt64, expr: Box::new(lit(i64d(i64::MIN))) };
    let before = format!("{:?}", e);
    e.reduce();
    assert_eq!(format!("{:?}", e), before);
    assert_eq!(e.eval(&[]), Err(EvalError::Int64OutOfRange));
}

#[test]
fn three_valued_logic_tables() {
    let t = lit(Datum::True);
    let f = lit(Datum::False);
    let n = lit(Datum::Null);
    assert_eq!(bin(BinaryFunc::And, f.clone(), n.clone()).eval(&[]), Ok(Datum::False));
    assert_eq!(bin(BinaryFunc::And, t.clone(), n.clone()).eval(&[]), Ok(Datum::Null));
    assert_eq!(bin(BinaryFunc::Or, t.clone(), n.clone()).eval(&[]), Ok(Datum::True));
    assert_eq!(bin(BinaryFunc::Or, f.clone(), n.clone()).eval(&[]), Ok(Datum::Null));
    let not_null = ScalarExpr::CallUnary { func: UnaryFunc::Not, expr: Box::new(n.clone()) };
    assert_eq!(not_null.eval(&[]), Ok(Datum::Null));
    let is_null = ScalarExpr::CallUnary { func: UnaryFunc::IsNull, expr: Box::new(n) };
    assert_eq!(is_null.eval(&[]), Ok(Datum::True));
}

#[test]
fn column_out_of_range_is_an_error() {
    assert_eq!(col(2).eval(&[i64d(1)]), Err(EvalError::ColumnOutOfRange));
}

#[test]
fn join_schema_sums_input_widths() {
    let plan = RelationExpr::Join { inputs: vec![get(1, 2), get(2, 3)] };
    assert_eq!(plan.typ(), typ(5));
}
