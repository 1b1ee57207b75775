//! Constant folding keeps plans well formed and keeps their schema.
use vstd::prelude::*;
use crate::scalar::{Datum, EvalError, ScalarExpr, reduced, denote, equivalent, lemma_reduced_equivalent,
    lemma_reduced_idempotent};
use crate::relation::{
    Rel, Row, AggregateExpr, arity, arity_sum, project_rows, wf, wf_all, lemma_wf_all, filter_rows, map_rows,
    extend_row, reduce_rows, reduce_groups, group_keys, aggregate_group,
    passes, eval_rel, some_known_empty,
};
use crate::fold::{fold_node, fold_tree, fold_all, simplify_predicates, some_unsatisfiable,
    is_empty_constant};

verus! {

/// Every row has `a` columns.
pub open spec fn all_width(rows: Seq<Row>, a: nat) -> bool {
    forall|i: int| 0 <= i < rows.len() ==> #[trigger] rows[i].len() == a
}

proof fn lemma_filter_rows_width(rows: Seq<Row>, preds: Seq<ScalarExpr>, a: nat)
    requires
        all_width(rows, a),
    ensures
        filter_rows(rows, preds) matches Some(out) ==> all_width(out, a),
    decreases rows.len(),
{
    if rows.len() > 0 {
        assert(all_width(rows.drop_last(), a)) by {
            assert forall|i: int| 0 <= i < rows.drop_last().len() implies #[trigger] rows.drop_last()[i].len() == a by {
                assert(rows.drop_last()[i] == rows[i]);
            }
        }
        assert(rows.last() == rows[rows.len() - 1]);
        lemma_filter_rows_width(rows.drop_last(), preds, a);
    }
}

proof fn lemma_extend_row_width(row: Row, scalars: Seq<ScalarExpr>)
    ensures
        extend_row(row, scalars) matches Some(r) ==> r.len() == row.len() + scalars.len(),
    decreases scalars.len(),
{
    if scalars.len() > 0 {
        lemma_extend_row_width(row, scalars.drop_last());
    }
}

proof fn lemma_map_rows_width(rows: Seq<Row>, scalars: Seq<ScalarExpr>, a: nat)
    requires
        all_width(rows, a),
    ensures
        map_rows(rows, scalars) matches Some(out) ==> all_width(out, a + scalars.len()),
    decreases rows.len(),
{
    if rows.len() > 0 {
        assert(all_width(rows.drop_last(), a)) by {
            assert forall|i: int| 0 <= i < rows.drop_last().len() implies #[trigger] rows.drop_last()[i].len() == a by {
                assert(rows.drop_last()[i] == rows[i]);
            }
        }
        assert(rows.last() == rows[rows.len() - 1]);
        lemma_map_rows_width(rows.drop_last(), scalars, a);
        lemma_extend_row_width(rows.last(), scalars);
    }
}

proof fn lemma_aggregate_group_width(group: Seq<Row>, aggs: Seq<AggregateExpr>)
    ensures
        aggregate_group(group, aggs) matches Some(v) ==> v.len() == aggs.len(),
    decreases aggs.len(),
{
    if aggs.len() > 0 {
        lemma_aggregate_group_width(group, aggs.drop_last());
    }
}

proof fn lemma_group_keys_width(rows: Seq<Row>, key: Seq<usize>)
    ensures
        all_width(group_keys(rows, key), key.len()),
    decreases rows.len(),
{
    if rows.len() > 0 {
        lemma_group_keys_width(rows.drop_last(), key);
    }
}

proof fn lemma_reduce_groups_width(rows: Seq<Row>, key: Seq<usize>, keys: Seq<Row>, aggs: Seq<
    AggregateExpr,
>)
    requires
        all_width(keys, key.len()),
    ensures
        reduce_groups(rows, key, keys, aggs) matches Some(out) ==> all_width(
            out,
            key.len() + aggs.len(),
        ),
    decreases keys.len(),
{
    if keys.len() > 0 {
        assert(all_width(keys.drop_last(), key.len())) by {
            assert forall|i: int| 0 <= i < keys.drop_last().len() implies #[trigger] keys.drop_last()[i].len() == key.len() by {
                assert(keys.drop_last()[i] == keys[i]);
            }
        }
        assert(keys.last() == keys[keys.len() - 1]);
        lemma_reduce_groups_width(rows, key, keys.drop_last(), aggs);
        let g = crate::relation::group_rows(rows, key, keys.last());
        lemma_aggregate_group_width(g, aggs);
    }
}

proof fn lemma_reduce_rows_width(rows: Seq<Row>, key: Seq<usize>, aggs: Seq<AggregateExpr>)
    ensures
        reduce_rows(rows, key, aggs) matches Some(out) ==> all_width(out, key.len() + aggs.len()),
{
    lemma_group_keys_width(rows, key);
    lemma_reduce_groups_width(rows, key, group_keys(rows, key), aggs);
}

/// One folding step keeps a well-formed node well formed and keeps its width.
pub proof fn lemma_fold_node_wf(c: Rel)
    requires
        wf(c),
    ensures
        wf(fold_node(c)),
        arity(fold_node(c)) == arity(c),
{
    match c {
        Rel::Reduce { input, group_key, aggregates } => {
            lemma_reduce_rows_width((*input)->Constant_rows, group_key, aggregates);
        },
        Rel::MapScalars { input, scalars } => {
            let s = scalars.map_values(|e: ScalarExpr| reduced(e));
            if (*input) is Constant {
                assert(wf(*input));
                assert(all_width((*input)->Constant_rows, arity(*input)));
                lemma_map_rows_width((*input)->Constant_rows, s, arity(*input));
            }
        },
        Rel::Filter { input, predicates } => {
            let p = simplify_predicates(predicates);
            if (*input) is Constant {
                assert(wf(*input));
                assert(all_width((*input)->Constant_rows, arity(*input)));
                lemma_filter_rows_width((*input)->Constant_rows, p, arity(*input));
            }
        },
        Rel::Union { left, right } => {
            if (*left) is Constant && (*right) is Constant {
                let rows = (*left)->Constant_rows + (*right)->Constant_rows;
                assert(wf(*left) && wf(*right));
                assert(all_width((*left)->Constant_rows, arity(*left)));
                assert(all_width((*right)->Constant_rows, arity(*right)));
                assert forall|i: int| 0 <= i < rows.len() implies #[trigger] rows[i].len()
                    == arity(c) by {
                    if i < (*left)->Constant_rows.len() {
                        assert(rows[i] == (*left)->Constant_rows[i]);
                    } else {
                        assert(rows[i] == (*right)->Constant_rows[i - (*left)->Constant_rows.len()]);
                    }
                }
            }
        },
        _ => {},
    }
}

/// Folding a whole plan keeps it well formed and keeps its width.
pub proof fn lemma_fold_tree_wf(t: Rel)
    requires
        wf(t),
    ensures
        wf(fold_tree(t)),
        arity(fold_tree(t)) == arity(t),
    decreases t,
{
    match t {
        Rel::Let { id, value, body } => {
            lemma_fold_tree_wf(*value);
            lemma_fold_tree_wf(*body);
            lemma_fold_node_wf(
                Rel::Let { id, value: Box::new(fold_tree(*value)), body: Box::new(fold_tree(*body)) },
            );
        },
        Rel::Project { input, outputs } => {
            lemma_fold_tree_wf(*input);
            lemma_fold_node_wf(Rel::Project { input: Box::new(fold_tree(*input)), outputs });
        },
        Rel::MapScalars { input, scalars } => {
            lemma_fold_tree_wf(*input);
            lemma_fold_node_wf(Rel::MapScalars { input: Box::new(fold_tree(*input)), scalars });
        },
        Rel::Filter { input, predicates } => {
            lemma_fold_tree_wf(*input);
            lemma_fold_node_wf(Rel::Filter { input: Box::new(fold_tree(*input)), predicates });
        },
        Rel::Join { inputs } => {
            lemma_fold_all_wf(inputs);
            lemma_fold_node_wf(Rel::Join { inputs: fold_all(inputs) });
        },
        Rel::Reduce { input, group_key, aggregates } => {
            lemma_fold_tree_wf(*input);
            lemma_fold_node_wf(
                Rel::Reduce { input: Box::new(fold_tree(*input)), group_key, aggregates },
            );
        },
        Rel::TopK { input, group_key, order_key, limit } => {
            lemma_fold_tree_wf(*input);
            lemma_fold_node_wf(
                Rel::TopK { input: Box::new(fold_tree(*input)), group_key, order_key, limit },
            );
        },
        Rel::Negate { input } => {
            lemma_fold_tree_wf(*input);
            lemma_fold_node_wf(Rel::Negate { input: Box::new(fold_tree(*input)) });
        },
        Rel::Threshold { input } => {
            lemma_fold_tree_wf(*input);
            lemma_fold_node_wf(Rel::Threshold { input: Box::new(fold_tree(*input)) });
        },
        Rel::Union { left, right } => {
            lemma_fold_tree_wf(*left);
            lemma_fold_tree_wf(*right);
            lemma_fold_node_wf(
                Rel::Union { left: Box::new(fold_tree(*left)), right: Box::new(fold_tree(*right)) },
            );
        },
        _ => {},
    }
}

pub proof fn lemma_fold_all_wf(s: Seq<Rel>)
    requires
        wf_all(s),
    ensures
        wf_all(fold_all(s)),
        arity_sum(fold_all(s)) == arity_sum(s),
        fold_all(s).len() == s.len(),
        forall|i: int| 0 <= i < s.len() ==> #[trigger] fold_all(s)[i] == fold_tree(s[i]),
    decreases s,
{
    if s.len() > 0 {
        lemma_fold_all_wf(s.drop_last());
        lemma_fold_tree_wf(s.last());
        let f = fold_all(s);
        assert(f == fold_all(s.drop_last()).push(fold_tree(s.last())));
        assert(f.drop_last() =~= fold_all(s.drop_last()));
        assert(f.last() == fold_tree(s.last()));
        assert forall|i: int| 0 <= i < s.len() implies #[trigger] fold_all(s)[i] == fold_tree(
            s[i],
        ) by {
            if i < s.len() - 1 {
                assert(s.drop_last()[i] == s[i]);
            }
        }
    }
}


// ---------------------------------------------------------------------------
// Semantic transparency
// ---------------------------------------------------------------------------

proof fn lemma_passes_simplify(preds: Seq<ScalarExpr>, row: Row)
    ensures
        passes(simplify_predicates(preds), row) == passes(preds, row),
    decreases preds.len(),
{
    if preds.len() > 0 {
        let prev = preds.drop_last();
        lemma_passes_simplify(prev, row);
        lemma_reduced_equivalent(preds.last());
        assert(denote(reduced(preds.last()), row) == denote(preds.last(), row));
        let sp = simplify_predicates(prev);
        let x = reduced(preds.last());
        if x != ScalarExpr::Literal(Datum::True) {
            assert(sp.push(x).drop_last() =~= sp);
        }
    }
}

proof fn lemma_filter_rows_simplify(rows: Seq<Row>, preds: Seq<ScalarExpr>)
    ensures
        filter_rows(rows, simplify_predicates(preds)) == filter_rows(rows, preds),
    decreases rows.len(),
{
    if rows.len() > 0 {
        lemma_filter_rows_simplify(rows.drop_last(), preds);
        lemma_passes_simplify(preds, rows.last());
    }
}

/// A row passes only if every predicate is `True` on it.
proof fn lemma_passes_all_true(preds: Seq<ScalarExpr>, row: Row)
    requires
        passes(preds, row) == Ok::<bool, EvalError>(true),
    ensures
        forall|k: int| 0 <= k < preds.len() ==> denote(#[trigger] preds[k], row) == Ok::<
            Datum,
            EvalError,
        >(Datum::True),
    decreases preds.len(),
{
    if preds.len() > 0 {
        lemma_passes_all_true(preds.drop_last(), row);
        assert forall|k: int| 0 <= k < preds.len() implies denote(#[trigger] preds[k], row)
            == Ok::<Datum, EvalError>(Datum::True) by {
            if k < preds.len() - 1 {
                assert(preds.drop_last()[k] == preds[k]);
            }
        }
    }
}

/// With an unsatisfiable predicate, no row is kept.
proof fn lemma_filter_rows_unsatisfiable(rows: Seq<Row>, preds: Seq<ScalarExpr>)
    requires
        some_unsatisfiable(preds),
    ensures
        filter_rows(rows, preds) matches Some(out) ==> out.len() == 0,
    decreases rows.len(),
{
    if rows.len() > 0 {
        lemma_filter_rows_unsatisfiable(rows.drop_last(), preds);
        let k = choose|k: int|
            0 <= k < preds.len() && (#[trigger] preds[k] == ScalarExpr::Literal(Datum::False)
                || preds[k] == ScalarExpr::Literal(Datum::Null));
        if passes(preds, rows.last()) == Ok::<bool, EvalError>(true) {
            lemma_passes_all_true(preds, rows.last());
            assert(denote(preds[k], rows.last()) == Ok::<Datum, EvalError>(Datum::True));
        }
    }
}

proof fn lemma_extend_row_equivalent(row: Row, s1: Seq<ScalarExpr>, s2: Seq<ScalarExpr>)
    requires
        s1.len() == s2.len(),
        forall|k: int| 0 <= k < s1.len() ==> equivalent(#[trigger] s1[k], s2[k]),
    ensures
        extend_row(row, s1) == extend_row(row, s2),
    decreases s1.len(),
{
    if s1.len() > 0 {
        assert forall|k: int| 0 <= k < s1.drop_last().len() implies equivalent(
            #[trigger] s1.drop_last()[k],
            s2.drop_last()[k],
        ) by {
            assert(s1.drop_last()[k] == s1[k]);
            assert(s2.drop_last()[k] == s2[k]);
        }
        lemma_extend_row_equivalent(row, s1.drop_last(), s2.drop_last());
        assert(equivalent(s1[s1.len() - 1], s2[s2.len() - 1]));
        match extend_row(row, s1.drop_last()) {
            Some(r) => {
                assert(denote(s1.last(), r) == denote(s2.last(), r));
            },
            None => {},
        }
    }
}

proof fn lemma_map_rows_reduced(rows: Seq<Row>, scalars: Seq<ScalarExpr>)
    ensures
        map_rows(rows, scalars.map_values(|e: ScalarExpr| reduced(e))) == map_rows(rows, scalars),
    decreases rows.len(),
{
    if rows.len() > 0 {
        lemma_map_rows_reduced(rows.drop_last(), scalars);
        let s = scalars.map_values(|e: ScalarExpr| reduced(e));
        assert forall|k: int| 0 <= k < s.len() implies equivalent(#[trigger] s[k], scalars[k]) by {
            lemma_reduced_equivalent(scalars[k]);
        }
        lemma_extend_row_equivalent(rows.last(), s, scalars);
    }
}

proof fn lemma_some_known_empty(s: Seq<Rel>)
    requires
        some_known_empty(s),
    ensures
        exists|i: int| 0 <= i < s.len() && eval_rel(#[trigger] s[i]) == Some(Seq::<Row>::empty()),
    decreases s.len(),
{
    if eval_rel(s.last()) == Some(Seq::<Row>::empty()) {
        assert(eval_rel(s[s.len() - 1]) == Some(Seq::<Row>::empty()));
    } else {
        lemma_some_known_empty(s.drop_last());
        let i = choose|i: int|
            0 <= i < s.drop_last().len() && eval_rel(#[trigger] s.drop_last()[i]) == Some(
                Seq::<Row>::empty(),
            );
        assert(s.drop_last()[i] == s[i]);
    }
}

/// Folding is semantically transparent: whenever a plan's rows are known
/// without reading any input, folding turns it into a single literal
/// relation holding exactly those rows, under the plan's own schema.
pub proof fn lemma_fold_transparent(t: Rel)
    requires
        wf(t),
        eval_rel(t) is Some,
    ensures
        fold_tree(t) == (Rel::Constant { rows: eval_rel(t)->Some_0, arity: arity(t) }),
    decreases t,
{
    lemma_fold_tree_wf(t);
    match t {
        Rel::Project { input, outputs } => {
            lemma_fold_transparent(*input);
        },
        Rel::MapScalars { input, scalars } => {
            lemma_fold_transparent(*input);
            lemma_map_rows_reduced(eval_rel(*input)->Some_0, scalars);
        },
        Rel::Filter { input, predicates } => {
            lemma_fold_transparent(*input);
            let rows = eval_rel(*input)->Some_0;
            lemma_filter_rows_simplify(rows, predicates);
            let p = simplify_predicates(predicates);
            if some_unsatisfiable(p) {
                lemma_filter_rows_unsatisfiable(rows, p);
                assert(eval_rel(t)->Some_0 =~= Seq::<Row>::empty());
            }
        },
        Rel::Reduce { input, .. } => {
            lemma_fold_transparent(*input);
        },
        Rel::Threshold { input } => {
            lemma_fold_transparent(*input);
        },
        Rel::Union { left, right } => {
            lemma_fold_transparent(*left);
            lemma_fold_transparent(*right);
        },
        Rel::Join { inputs } => {
            lemma_some_known_empty(inputs);
            let i = choose|i: int|
                0 <= i < inputs.len() && eval_rel(#[trigger] inputs[i]) == Some(
                    Seq::<Row>::empty(),
                );
            lemma_wf_all(inputs);
            assert(wf(inputs[i]));
            assert(decreases_to!(t => inputs));
            assert(decreases_to!(inputs => inputs[i]));
            lemma_fold_transparent(inputs[i]);
            lemma_fold_all_wf(inputs);
            assert(is_empty_constant(fold_all(inputs)[i]));
            assert(eval_rel(t)->Some_0 =~= Seq::<Row>::empty());
        },
        _ => {},
    }
}

/// One folding step keeps what a node evaluates to, whenever that is known.
pub proof fn lemma_fold_node_eval(c: Rel)
    requires
        eval_rel(c) is Some,
    ensures
        eval_rel(fold_node(c)) == eval_rel(c),
{
    match c {
        Rel::MapScalars { input, scalars } => {
            let rows = eval_rel(*input)->Some_0;
            let s = scalars.map_values(|e: ScalarExpr| reduced(e));
            lemma_map_rows_reduced(rows, scalars);
            assert(map_rows(rows, s) == map_rows(rows, scalars));
            assert(eval_rel(Rel::MapScalars { input, scalars: s }) == map_rows(rows, s));
            if (*input) is Constant {
                assert(rows == (*input)->Constant_rows);
                assert(map_rows(rows, s) is Some);
                assert(fold_node(c) == Rel::Constant { rows: map_rows(rows, s)->Some_0, arity: arity(c) });
            } else {
                assert(fold_node(c) == Rel::MapScalars { input, scalars: s });
            }
            assert(eval_rel(c) == map_rows(rows, scalars));
        },
        Rel::Filter { input, predicates } => {
            let rows = eval_rel(*input)->Some_0;
            lemma_filter_rows_simplify(rows, predicates);
            let p = simplify_predicates(predicates);
            if some_unsatisfiable(p) {
                lemma_filter_rows_unsatisfiable(rows, p);
                assert(eval_rel(c)->Some_0 =~= Seq::<Row>::empty());
            }
        },
        Rel::Join { inputs } => {
            assert(eval_rel(c) == Some(Seq::<Row>::empty()));
        },
        Rel::Union { left, right } => {
            let a = eval_rel(*left)->Some_0;
            let b = eval_rel(*right)->Some_0;
            if is_empty_constant(*left) {
                assert(a + b =~= b);
            }
            if is_empty_constant(*right) {
                assert(a + b =~= a);
            }
        },
        Rel::Threshold { input } => {
            if (*input) is Constant {
                assert(fold_node(c) == *input);
            }
        },
        Rel::Project { input, outputs } => {
            if (*input) is Constant {
                assert(eval_rel(*input) == Some((*input)->Constant_rows));
            }
        },
        Rel::Reduce { input, group_key, aggregates } => {
            if (*input) is Constant {
                assert(eval_rel(*input) == Some((*input)->Constant_rows));
            }
        },
        _ => {},
    }
}

// ---------------------------------------------------------------------------
// Idempotence
// ---------------------------------------------------------------------------

proof fn lemma_simplify_idempotent(preds: Seq<ScalarExpr>)
    ensures
        simplify_predicates(simplify_predicates(preds)) == simplify_predicates(preds),
    decreases preds.len(),
{
    if preds.len() > 0 {
        let prev = preds.drop_last();
        lemma_simplify_idempotent(prev);
        let x = reduced(preds.last());
        lemma_reduced_idempotent(preds.last());
        if x != ScalarExpr::Literal(Datum::True) {
            let sp = simplify_predicates(prev);
            assert(sp.push(x).drop_last() =~= sp);
        }
    }
}

proof fn lemma_fold_all_fixed(s: Seq<Rel>)
    requires
        forall|i: int| 0 <= i < s.len() ==> fold_tree(#[trigger] s[i]) == s[i],
    ensures
        fold_all(s) == s,
    decreases s.len(),
{
    if s.len() > 0 {
        assert forall|i: int| 0 <= i < s.drop_last().len() implies fold_tree(
            #[trigger] s.drop_last()[i],
        ) == s.drop_last()[i] by {
            assert(s.drop_last()[i] == s[i]);
        }
        lemma_fold_all_fixed(s.drop_last());
        assert(fold_tree(s[s.len() - 1]) == s[s.len() - 1]);
        assert(s.drop_last().push(s.last()) =~= s);
    }
}

/// A folding step on a node whose children are already fixed points gives a
/// fixed point.
proof fn lemma_fold_node_fixed(c: Rel)
    requires
        match c {
            Rel::Let { value, body, .. } => fold_tree(*value) == *value && fold_tree(*body) == *body,
            Rel::Join { inputs } => forall|i: int|
                0 <= i < inputs.len() ==> fold_tree(#[trigger] inputs[i]) == inputs[i],
            Rel::Union { left, right } => fold_tree(*left) == *left && fold_tree(*right) == *right,
            Rel::Project { input, .. } => fold_tree(*input) == *input,
            Rel::MapScalars { input, .. } => fold_tree(*input) == *input,
            Rel::Filter { input, .. } => fold_tree(*input) == *input,
            Rel::Reduce { input, .. } => fold_tree(*input) == *input,
            Rel::TopK { input, .. } => fold_tree(*input) == *input,
            Rel::Negate { input } => fold_tree(*input) == *input,
            Rel::Threshold { input } => fold_tree(*input) == *input,
            _ => true,
        },
    ensures
        fold_tree(fold_node(c)) == fold_node(c),
{
    match c {
        Rel::Join { inputs } => {
            lemma_fold_all_fixed(inputs);
        },
        Rel::MapScalars { input, scalars } => {
            let s = scalars.map_values(|e: ScalarExpr| reduced(e));
            assert forall|k: int| 0 <= k < s.len() implies #[trigger] reduced(s[k]) == s[k] by {
                lemma_reduced_idempotent(scalars[k]);
            }
            assert(s.map_values(|e: ScalarExpr| reduced(e)) =~= s);
        },
        Rel::Filter { input, predicates } => {
            lemma_simplify_idempotent(predicates);
        },
        _ => {},
    }
}

/// Folding twice gives the same plan as folding once.
pub proof fn lemma_fold_idempotent(t: Rel)
    ensures
        fold_tree(fold_tree(t)) == fold_tree(t),
    decreases t,
{
    match t {
        Rel::Let { id, value, body } => {
            lemma_fold_idempotent(*value);
            lemma_fold_idempotent(*body);
            lemma_fold_node_fixed(
                Rel::Let { id, value: Box::new(fold_tree(*value)), body: Box::new(fold_tree(*body)) },
            );
        },
        Rel::Project { input, outputs } => {
            lemma_fold_idempotent(*input);
            lemma_fold_node_fixed(Rel::Project { input: Box::new(fold_tree(*input)), outputs });
        },
        Rel::MapScalars { input, scalars } => {
            lemma_fold_idempotent(*input);
            lemma_fold_node_fixed(Rel::MapScalars { input: Box::new(fold_tree(*input)), scalars });
        },
        Rel::Filter { input, predicates } => {
            lemma_fold_idempotent(*input);
            lemma_fold_node_fixed(Rel::Filter { input: Box::new(fold_tree(*input)), predicates });
        },
        Rel::Join { inputs } => {
            lemma_fold_all_idempotent(inputs);
            lemma_fold_node_fixed(Rel::Join { inputs: fold_all(inputs) });
        },
        Rel::Reduce { input, group_key, aggregates } => {
            lemma_fold_idempotent(*input);
            lemma_fold_node_fixed(
                Rel::Reduce { input: Box::new(fold_tree(*input)), group_key, aggregates },
            );
        },
        Rel::TopK { input, group_key, order_key, limit } => {
            lemma_fold_idempotent(*input);
            lemma_fold_node_fixed(
                Rel::TopK { input: Box::new(fold_tree(*input)), group_key, order_key, limit },
            );
        },
        Rel::Negate { input } => {
            lemma_fold_idempotent(*input);
            lemma_fold_node_fixed(Rel::Negate { input: Box::new(fold_tree(*input)) });
        },
        Rel::Threshold { input } => {
            lemma_fold_idempotent(*input);
            lemma_fold_node_fixed(Rel::Threshold { input: Box::new(fold_tree(*input)) });
        },
        Rel::Union { left, right } => {
            lemma_fold_idempotent(*left);
            lemma_fold_idempotent(*right);
            lemma_fold_node_fixed(
                Rel::Union { left: Box::new(fold_tree(*left)), right: Box::new(fold_tree(*right)) },
            );
        },
        _ => {},
    }
}

proof fn lemma_fold_all_idempotent(s: Seq<Rel>)
    ensures
        fold_all(s).len() == s.len(),
        forall|i: int| 0 <= i < s.len() ==> fold_tree(#[trigger] fold_all(s)[i]) == fold_all(s)[i],
    decreases s,
{
    if s.len() > 0 {
        lemma_fold_all_idempotent(s.drop_last());
        lemma_fold_idempotent(s.last());
        assert forall|i: int| 0 <= i < s.len() implies fold_tree(#[trigger] fold_all(s)[i])
            == fold_all(s)[i] by {
            if i < s.len() - 1 {
                assert(fold_all(s)[i] == fold_all(s.drop_last())[i]);
            }
        }
    }
}


// ---------------------------------------------------------------------------
// Semantic transparency with named inputs
// ---------------------------------------------------------------------------

/// Every pairing of a row of `a` with a row of `b`, each pair concatenated;
/// the rows of `a` vary slowest.
pub open spec fn cross(a: Seq<Row>, b: Seq<Row>) -> Seq<Row>
    decreases a.len(),
{
    if a.len() == 0 {
        Seq::empty()
    } else {
        cross(a.drop_last(), b) + b.map_values(|r: Row| a.last() + r)
    }
}

/// The rows a plan evaluates to when each named input `id` holds the rows
/// `env[id]`: `Let` binds its value for its body, and a join pairs every row
/// of its inputs. `None` for an unbound name, for `TopK` and `Negate`, which
/// have no evaluation rule here, and where evaluating a scalar or an
/// aggregate fails.
pub open spec fn eval_in(r: Rel, env: Map<u64, Seq<Row>>) -> Option<Seq<Row>>
    decreases r,
{
    match r {
        Rel::Constant { rows, .. } => Some(rows),
        Rel::Get { id, .. } => if env.contains_key(id) {
            Some(env[id])
        } else {
            None
        },
        Rel::Let { id, value, body } => match eval_in(*value, env) {
            Some(v) => eval_in(*body, env.insert(id, v)),
            None => None,
        },
        Rel::Project { input, outputs } => match eval_in(*input, env) {
            Some(rows) => Some(project_rows(rows, outputs)),
            None => None,
        },
        Rel::MapScalars { input, scalars } => match eval_in(*input, env) {
            Some(rows) => map_rows(rows, scalars),
            None => None,
        },
        Rel::Filter { input, predicates } => match eval_in(*input, env) {
            Some(rows) => filter_rows(rows, predicates),
            None => None,
        },
        Rel::Join { inputs } => eval_join(inputs, env),
        Rel::Reduce { input, group_key, aggregates } => match eval_in(*input, env) {
            Some(rows) => reduce_rows(rows, group_key, aggregates),
            None => None,
        },
        Rel::Threshold { input } => eval_in(*input, env),
        Rel::Union { left, right } => match (eval_in(*left, env), eval_in(*right, env)) {
            (Some(a), Some(b)) => Some(a + b),
            _ => None,
        },
        _ => None,
    }
}

/// The rows of a join of `s`: one empty row when `s` is empty.
pub open spec fn eval_join(s: Seq<Rel>, env: Map<u64, Seq<Row>>) -> Option<Seq<Row>>
    decreases s,
{
    if s.len() == 0 {
        Some(seq![Seq::<Datum>::empty()])
    } else {
        match (eval_join(s.drop_last(), env), eval_in(s.last(), env)) {
            (Some(p), Some(x)) => Some(cross(p, x)),
            _ => None,
        }
    }
}

proof fn lemma_cross_empty(a: Seq<Row>, b: Seq<Row>)
    requires
        b.len() == 0,
    ensures
        cross(a, b).len() == 0,
    decreases a.len(),
{
    if a.len() > 0 {
        lemma_cross_empty(a.drop_last(), b);
    }
}

/// A join with an input that evaluates to no rows has no rows.
proof fn lemma_eval_join_empty(s: Seq<Rel>, env: Map<u64, Seq<Row>>, i: int)
    requires
        0 <= i < s.len(),
        eval_in(s[i], env) == Some(Seq::<Row>::empty()),
        eval_join(s, env) is Some,
    ensures
        eval_join(s, env) == Some(Seq::<Row>::empty()),
    decreases s.len(),
{
    let p = eval_join(s.drop_last(), env)->Some_0;
    let x = eval_in(s.last(), env)->Some_0;
    if i == s.len() - 1 {
        lemma_cross_empty(p, x);
        assert(cross(p, x) =~= Seq::<Row>::empty());
    } else {
        assert(s.drop_last()[i] == s[i]);
        lemma_eval_join_empty(s.drop_last(), env, i);
        assert(cross(p, x) =~= Seq::<Row>::empty());
    }
}

/// One folding step keeps what a node evaluates to, under any binding of
/// the named inputs, whenever that is known.
pub proof fn lemma_fold_node_eval_in(c: Rel, env: Map<u64, Seq<Row>>)
    requires
        eval_in(c, env) is Some,
    ensures
        eval_in(fold_node(c), env) == eval_in(c, env),
{
    match c {
        Rel::MapScalars { input, scalars } => {
            let rows = eval_in(*input, env)->Some_0;
            let s = scalars.map_values(|e: ScalarExpr| reduced(e));
            lemma_map_rows_reduced(rows, scalars);
            if (*input) is Constant {
                assert(rows == (*input)->Constant_rows);
                assert(fold_node(c) == Rel::Constant { rows: map_rows(rows, s)->Some_0, arity: arity(c) });
            } else {
                assert(fold_node(c) == Rel::MapScalars { input, scalars: s });
            }
        },
        Rel::Filter { input, predicates } => {
            let rows = eval_in(*input, env)->Some_0;
            lemma_filter_rows_simplify(rows, predicates);
            let p = simplify_predicates(predicates);
            if some_unsatisfiable(p) {
                lemma_filter_rows_unsatisfiable(rows, p);
                assert(eval_in(c, env)->Some_0 =~= Seq::<Row>::empty());
            } else if (*input) is Constant {
                assert(rows == (*input)->Constant_rows);
            }
        },
        Rel::Join { inputs } => {
            if exists|i: int| 0 <= i < inputs.len() && is_empty_constant(#[trigger] inputs[i]) {
                let i = choose|i: int| 0 <= i < inputs.len() && is_empty_constant(#[trigger] inputs[i]);
                assert(eval_in(inputs[i], env) == Some((inputs[i])->Constant_rows));
                assert((inputs[i])->Constant_rows =~= Seq::<Row>::empty());
                lemma_eval_join_empty(inputs, env, i);
            }
        },
        Rel::Union { left, right } => {
            let a = eval_in(*left, env)->Some_0;
            let b = eval_in(*right, env)->Some_0;
            if is_empty_constant(*left) {
                assert(a + b =~= b);
            }
            if is_empty_constant(*right) {
                assert(a + b =~= a);
            }
        },
        Rel::Threshold { input } => {
            if (*input) is Constant {
                assert(fold_node(c) == *input);
            }
        },
        Rel::Project { input, .. } => {
            if (*input) is Constant {
                assert(eval_in(*input, env) == Some((*input)->Constant_rows));
            }
        },
        Rel::Reduce { input, .. } => {
            if (*input) is Constant {
                assert(eval_in(*input, env) == Some((*input)->Constant_rows));
            }
        },
        _ => {},
    }
}

/// Folding is semantically transparent: under any binding of the named
/// inputs, a plan whose rows are known evaluates, once folded, to the same
/// rows.
pub proof fn lemma_fold_preserves_eval(t: Rel, env: Map<u64, Seq<Row>>)
    requires
        eval_in(t, env) is Some,
    ensures
        eval_in(fold_tree(t), env) == eval_in(t, env),
    decreases t,
{
    match t {
        Rel::Let { id, value, body } => {
            lemma_fold_preserves_eval(*value, env);
            let v = eval_in(*value, env)->Some_0;
            lemma_fold_preserves_eval(*body, env.insert(id, v));
            let c = Rel::Let {
                id,
                value: Box::new(fold_tree(*value)),
                body: Box::new(fold_tree(*body)),
            };
            lemma_fold_node_eval_in(c, env);
        },
        Rel::Project { input, outputs } => {
            lemma_fold_preserves_eval(*input, env);
            lemma_fold_node_eval_in(Rel::Project { input: Box::new(fold_tree(*input)), outputs }, env);
        },
        Rel::MapScalars { input, scalars } => {
            lemma_fold_preserves_eval(*input, env);
            lemma_fold_node_eval_in(
                Rel::MapScalars { input: Box::new(fold_tree(*input)), scalars },
                env,
            );
        },
        Rel::Filter { input, predicates } => {
            lemma_fold_preserves_eval(*input, env);
            lemma_fold_node_eval_in(
                Rel::Filter { input: Box::new(fold_tree(*input)), predicates },
                env,
            );
        },
        Rel::Join { inputs } => {
            lemma_fold_all_eval(inputs, env);
            lemma_fold_node_eval_in(Rel::Join { inputs: fold_all(inputs) }, env);
        },
        Rel::Reduce { input, group_key, aggregates } => {
            lemma_fold_preserves_eval(*input, env);
            lemma_fold_node_eval_in(
                Rel::Reduce { input: Box::new(fold_tree(*input)), group_key, aggregates },
                env,
            );
        },
        Rel::Threshold { input } => {
            lemma_fold_preserves_eval(*input, env);
            lemma_fold_node_eval_in(Rel::Threshold { input: Box::new(fold_tree(*input)) }, env);
        },
        Rel::Union { left, right } => {
            lemma_fold_preserves_eval(*left, env);
            lemma_fold_preserves_eval(*right, env);
            lemma_fold_node_eval_in(
                Rel::Union { left: Box::new(fold_tree(*left)), right: Box::new(fold_tree(*right)) },
                env,
            );
        },
        _ => {},
    }
}

proof fn lemma_fold_all_eval(s: Seq<Rel>, env: Map<u64, Seq<Row>>)
    requires
        eval_join(s, env) is Some,
    ensures
        eval_join(fold_all(s), env) == eval_join(s, env),
    decreases s,
{
    if s.len() > 0 {
        lemma_fold_all_eval(s.drop_last(), env);
        lemma_fold_preserves_eval(s.last(), env);
        let f = fold_all(s);
        assert(f.drop_last() =~= fold_all(s.drop_last()));
        assert(f.last() == fold_tree(s.last()));
    }
}

} // verus!
