//! Constant folding: operators whose inputs are literal are evaluated eagerly.
use vstd::prelude::*;
use crate::group::reduce_constant;
use crate::fold_lemmas::{
    lemma_fold_tree_wf, lemma_fold_all_wf, lemma_fold_node_wf, lemma_fold_node_eval,
    lemma_fold_transparent, lemma_fold_node_eval_in, lemma_fold_preserves_eval, eval_in,
};
use crate::scalar::{Datum, ScalarExpr, EvalError, reduced};
use crate::relation::{Rel, RelationExpr, RelationType, Row, wf, wf_all, lemma_wf_all,
    lemma_rels_view, rels_view, rel_view, arity, reduce_rows, map_rows, filter_rows, project_rows, project_row,
    passes, extend_row, rows_view, eval_rel};

verus! {

/// The constant-folding transform. Operators over literal inputs are
/// evaluated and replaced by a literal relation under the operator's own
/// schema; an evaluation that fails leaves the operator in place. Grouping
/// emits groups in the order their keys first appear in the input.
#[derive(Debug)]
pub struct FoldConstants;

pub open spec fn empty_rel(arity: nat) -> Rel {
    Rel::Constant { rows: Seq::empty(), arity }
}

/// A literal relation without rows.
pub open spec fn is_empty_constant(r: Rel) -> bool {
    r is Constant && r->Constant_rows.len() == 0
}

/// Filter predicates after folding each one and dropping those that are the
/// literal `True`.
pub open spec fn simplify_predicates(preds: Seq<ScalarExpr>) -> Seq<ScalarExpr>
    decreases preds.len(),
{
    if preds.len() == 0 {
        Seq::empty()
    } else {
        let prev = simplify_predicates(preds.drop_last());
        let p = reduced(preds.last());
        if p == ScalarExpr::Literal(Datum::True) {
            prev
        } else {
            prev.push(p)
        }
    }
}

/// Whether some predicate is the literal `False` or `Null`, which no row
/// satisfies.
pub open spec fn some_unsatisfiable(preds: Seq<ScalarExpr>) -> bool {
    exists|i: int|
        0 <= i < preds.len() && (#[trigger] preds[i] == ScalarExpr::Literal(Datum::False)
            || preds[i] == ScalarExpr::Literal(Datum::Null))
}

/// One folding step on a node whose children are already folded.
pub open spec fn fold_node(r: Rel) -> Rel {
    let a = arity(r);
    match r {
        Rel::Reduce { input, group_key, aggregates } => if (*input) is Constant {
            match reduce_rows((*input)->Constant_rows, group_key, aggregates) {
                Some(rows) => Rel::Constant { rows, arity: a },
                None => r,
            }
        } else {
            r
        },
        Rel::Threshold { input } => if (*input) is Constant {
            *input
        } else {
            r
        },
        Rel::MapScalars { input, scalars } => {
            let s = scalars.map_values(|e: ScalarExpr| reduced(e));
            let kept = Rel::MapScalars { input, scalars: s };
            if (*input) is Constant {
                match map_rows((*input)->Constant_rows, s) {
                    Some(rows) => Rel::Constant { rows, arity: a },
                    None => kept,
                }
            } else {
                kept
            }
        },
        Rel::Filter { input, predicates } => {
            let p = simplify_predicates(predicates);
            if some_unsatisfiable(p) {
                empty_rel(a)
            } else if (*input) is Constant {
                match filter_rows((*input)->Constant_rows, p) {
                    Some(rows) => Rel::Constant { rows, arity: a },
                    None => Rel::Filter { input, predicates: p },
                }
            } else {
                Rel::Filter { input, predicates: p }
            }
        },
        Rel::Project { input, outputs } => if (*input) is Constant {
            Rel::Constant { rows: project_rows((*input)->Constant_rows, outputs), arity: a }
        } else {
            r
        },
        Rel::Join { inputs } => if exists|i: int|
            0 <= i < inputs.len() && is_empty_constant(#[trigger] inputs[i]) {
            empty_rel(a)
        } else {
            r
        },
        Rel::Union { left, right } => if (*left) is Constant && (*right) is Constant {
            Rel::Constant { rows: (*left)->Constant_rows + (*right)->Constant_rows, arity: a }
        } else if is_empty_constant(*left) {
            *right
        } else if is_empty_constant(*right) {
            *left
        } else {
            r
        },
        _ => r,
    }
}

/// Constant folding of a whole plan, children before parents.
pub open spec fn fold_tree(r: Rel) -> Rel
    decreases r,
{
    match r {
        Rel::Let { id, value, body } => fold_node(
            Rel::Let { id, value: Box::new(fold_tree(*value)), body: Box::new(fold_tree(*body)) },
        ),
        Rel::Project { input, outputs } => fold_node(
            Rel::Project { input: Box::new(fold_tree(*input)), outputs },
        ),
        Rel::MapScalars { input, scalars } => fold_node(
            Rel::MapScalars { input: Box::new(fold_tree(*input)), scalars },
        ),
        Rel::Filter { input, predicates } => fold_node(
            Rel::Filter { input: Box::new(fold_tree(*input)), predicates },
        ),
        Rel::Join { inputs } => fold_node(Rel::Join { inputs: fold_all(inputs) }),
        Rel::Reduce { input, group_key, aggregates } => fold_node(
            Rel::Reduce { input: Box::new(fold_tree(*input)), group_key, aggregates },
        ),
        Rel::TopK { input, group_key, order_key, limit } => fold_node(
            Rel::TopK { input: Box::new(fold_tree(*input)), group_key, order_key, limit },
        ),
        Rel::Negate { input } => fold_node(Rel::Negate { input: Box::new(fold_tree(*input)) }),
        Rel::Threshold { input } => fold_node(
            Rel::Threshold { input: Box::new(fold_tree(*input)) },
        ),
        Rel::Union { left, right } => fold_node(
            Rel::Union { left: Box::new(fold_tree(*left)), right: Box::new(fold_tree(*right)) },
        ),
        _ => r,
    }
}

pub open spec fn fold_all(s: Seq<Rel>) -> Seq<Rel>
    decreases s,
{
    if s.len() == 0 {
        Seq::empty()
    } else {
        fold_all(s.drop_last()).push(fold_tree(s.last()))
    }
}


// ---------------------------------------------------------------------------
// Evaluation over literal rows
// ---------------------------------------------------------------------------

pub open spec fn opt_rows_view(o: Option<Vec<Vec<Datum>>>) -> Option<Seq<Row>> {
    match o {
        Some(v) => Some(rows_view(v@)),
        None => None,
    }
}

pub proof fn lemma_rows_view_push(v: Seq<Vec<Datum>>, x: Vec<Datum>)
    ensures
        rows_view(v.push(x)) == rows_view(v).push(x@),
{
    assert(rows_view(v.push(x)) =~= rows_view(v).push(x@));
}

/// Once a predicate has failed or erred on a row, later predicates do not
/// change the outcome.
proof fn lemma_passes_settled(preds: Seq<ScalarExpr>, row: Row, i: int)
    requires
        0 <= i <= preds.len(),
        passes(preds.take(i), row) != Ok::<bool, EvalError>(true),
    ensures
        passes(preds, row) == passes(preds.take(i), row),
    decreases preds.len() - i,
{
    if i < preds.len() {
        assert(preds.take(i + 1).drop_last() =~= preds.take(i));
        lemma_passes_settled(preds, row, i + 1);
    } else {
        assert(preds.take(i) =~= preds);
    }
}

fn copy_row(row: &Vec<Datum>) -> (r: Vec<Datum>)
    ensures
        r@ == row@,
{
    let mut out: Vec<Datum> = Vec::new();
    let mut i: usize = 0;
    while i < row.len()
        invariant
            i <= row.len(),
            out@ == row@.take(i as int),
        decreases row.len() - i,
    {
        out.push(row[i]);
        i = i + 1;
        assert(out@ =~= row@.take(i as int));
    }
    assert(row@.take(i as int) =~= row@);
    out
}

fn passes_exec(preds: &Vec<ScalarExpr>, row: &Vec<Datum>) -> (r: Result<bool, EvalError>)
    ensures
        r == passes(preds@, row@),
{
    let mut i: usize = 0;
    assert(preds@.take(0).len() == 0);
    while i < preds.len()
        invariant
            i <= preds.len(),
            passes(preds@.take(i as int), row@) == Ok::<bool, EvalError>(true),
        decreases preds.len() - i,
    {
        assert(preds@.take(i + 1).drop_last() =~= preds@.take(i as int));
        match preds[i].eval(row.as_slice()) {
            Ok(d) => {
                if d != Datum::True {
                    proof {
                        lemma_passes_settled(preds@, row@, i + 1);
                    }
                    return Ok(false);
                }
            },
            Err(e) => {
                proof {
                    lemma_passes_settled(preds@, row@, i + 1);
                }
                return Err(e);
            },
        }
        i = i + 1;
    }
    assert(preds@.take(i as int) =~= preds@);
    Ok(true)
}

proof fn lemma_filter_rows_none(rows: Seq<Row>, preds: Seq<ScalarExpr>, i: int)
    requires
        0 <= i <= rows.len(),
        filter_rows(rows.take(i), preds) is None,
    ensures
        filter_rows(rows, preds) is None,
    decreases rows.len() - i,
{
    if i < rows.len() {
        assert(rows.take(i + 1).drop_last() =~= rows.take(i));
        lemma_filter_rows_none(rows, preds, i + 1);
    } else {
        assert(rows.take(i) =~= rows);
    }
}

/// The literal rows that satisfy every predicate, or `None` when evaluating
/// a predicate fails.
fn filter_constant(rows: &Vec<Vec<Datum>>, preds: &Vec<ScalarExpr>) -> (r: Option<Vec<Vec<Datum>>>)
    ensures
        opt_rows_view(r) == filter_rows(rows_view(rows@), preds@),
{
    let ghost rv = rows_view(rows@);
    let mut out: Vec<Vec<Datum>> = Vec::new();
    let mut i: usize = 0;
    assert(rv.take(0) =~= Seq::<Row>::empty());
    assert(rows_view(out@) =~= Seq::<Row>::empty());
    while i < rows.len()
        invariant
            i <= rows.len(),
            rv == rows_view(rows@),
            filter_rows(rv.take(i as int), preds@) == Some(rows_view(out@)),
        decreases rows.len() - i,
    {
        assert(rv.take(i + 1).drop_last() =~= rv.take(i as int));
        assert(rv.take(i + 1).last() == rows@[i as int]@);
        match passes_exec(preds, &rows[i]) {
            Ok(keep) => {
                if keep {
                    let c = copy_row(&rows[i]);
                    proof {
                        lemma_rows_view_push(out@, c);
                    }
                    out.push(c);
                }
            },
            Err(_) => {
                proof {
                    lemma_filter_rows_none(rv, preds@, i + 1);
                }
                return None;
            },
        }
        i = i + 1;
    }
    assert(rv.take(i as int) =~= rv);
    Some(out)
}

proof fn lemma_extend_row_none(row: Row, scalars: Seq<ScalarExpr>, i: int)
    requires
        0 <= i <= scalars.len(),
        extend_row(row, scalars.take(i)) is None,
    ensures
        extend_row(row, scalars) is None,
    decreases scalars.len() - i,
{
    if i < scalars.len() {
        assert(scalars.take(i + 1).drop_last() =~= scalars.take(i));
        lemma_extend_row_none(row, scalars, i + 1);
    } else {
        assert(scalars.take(i) =~= scalars);
    }
}

proof fn lemma_map_rows_none(rows: Seq<Row>, scalars: Seq<ScalarExpr>, i: int)
    requires
        0 <= i <= rows.len(),
        map_rows(rows.take(i), scalars) is None,
    ensures
        map_rows(rows, scalars) is None,
    decreases rows.len() - i,
{
    if i < rows.len() {
        assert(rows.take(i + 1).drop_last() =~= rows.take(i));
        lemma_map_rows_none(rows, scalars, i + 1);
    } else {
        assert(rows.take(i) =~= rows);
    }
}

fn extend_row_exec(row: &Vec<Datum>, scalars: &Vec<ScalarExpr>) -> (r: Option<Vec<Datum>>)
    ensures
        match r {
            Some(v) => extend_row(row@, scalars@) == Some(v@),
            None => extend_row(row@, scalars@) is None,
        },
{
    let mut cur = copy_row(row);
    let mut j: usize = 0;
    assert(scalars@.take(0) =~= Seq::<ScalarExpr>::empty());
    while j < scalars.len()
        invariant
            j <= scalars.len(),
            extend_row(row@, scalars@.take(j as int)) == Some(cur@),
        decreases scalars.len() - j,
    {
        assert(scalars@.take(j + 1).drop_last() =~= scalars@.take(j as int));
        match scalars[j].eval(cur.as_slice()) {
            Ok(d) => {
                cur.push(d);
            },
            Err(_) => {
                proof {
                    lemma_extend_row_none(row@, scalars@, j + 1);
                }
                return None;
            },
        }
        j = j + 1;
    }
    assert(scalars@.take(j as int) =~= scalars@);
    Some(cur)
}

/// Each literal row extended by the scalars, or `None` when an evaluation
/// fails.
fn map_constant(rows: &Vec<Vec<Datum>>, scalars: &Vec<ScalarExpr>) -> (r: Option<Vec<Vec<Datum>>>)
    ensures
        opt_rows_view(r) == map_rows(rows_view(rows@), scalars@),
{
    let ghost rv = rows_view(rows@);
    let mut out: Vec<Vec<Datum>> = Vec::new();
    let mut i: usize = 0;
    assert(rv.take(0) =~= Seq::<Row>::empty());
    assert(rows_view(out@) =~= Seq::<Row>::empty());
    while i < rows.len()
        invariant
            i <= rows.len(),
            rv == rows_view(rows@),
            map_rows(rv.take(i as int), scalars@) == Some(rows_view(out@)),
        decreases rows.len() - i,
    {
        assert(rv.take(i + 1).drop_last() =~= rv.take(i as int));
        assert(rv.take(i + 1).last() == rows@[i as int]@);
        match extend_row_exec(&rows[i], scalars) {
            Some(c) => {
                proof {
                    lemma_rows_view_push(out@, c);
                }
                out.push(c);
            },
            None => {
                proof {
                    lemma_map_rows_none(rv, scalars@, i + 1);
                }
                return None;
            },
        }
        i = i + 1;
    }
    assert(rv.take(i as int) =~= rv);
    Some(out)
}

/// Each literal row narrowed to the chosen columns.
fn project_constant(rows: &Vec<Vec<Datum>>, outputs: &Vec<usize>) -> (r: Vec<Vec<Datum>>)
    requires
        forall|i: int, j: int|
            0 <= i < rows.len() && 0 <= j < outputs.len() ==> #[trigger] outputs@[j]
                < #[trigger] rows@[i].len(),
    ensures
        rows_view(r@) == project_rows(rows_view(rows@), outputs@),
{
    let ghost rv = rows_view(rows@);
    let mut out: Vec<Vec<Datum>> = Vec::new();
    let mut i: usize = 0;
    while i < rows.len()
        invariant
            i <= rows.len(),
            rv == rows_view(rows@),
            forall|i: int, j: int|
                0 <= i < rows.len() && 0 <= j < outputs.len() ==> #[trigger] outputs@[j]
                    < #[trigger] rows@[i].len(),
            rows_view(out@) == project_rows(rv.take(i as int), outputs@),
        decreases rows.len() - i,
    {
        let row = &rows[i];
        let mut new_row: Vec<Datum> = Vec::new();
        let mut j: usize = 0;
        while j < outputs.len()
            invariant
                j <= outputs.len(),
                i < rows.len(),
                *row == rows@[i as int],
                forall|i: int, j: int|
                    0 <= i < rows.len() && 0 <= j < outputs.len() ==> #[trigger] outputs@[j]
                        < #[trigger] rows@[i].len(),
                new_row@ == project_row(row@, outputs@.take(j as int)),
            decreases outputs.len() - j,
        {
            assert(outputs@[j as int] < rows@[i as int].len());
            new_row.push(row[outputs[j]]);
            j = j + 1;
            assert(new_row@ =~= project_row(row@, outputs@.take(j as int)));
        }
        assert(outputs@.take(j as int) =~= outputs@);
        proof {
            lemma_rows_view_push(out@, new_row);
        }
        out.push(new_row);
        i = i + 1;
        assert(rows_view(out@) =~= project_rows(rv.take(i as int), outputs@));
    }
    assert(rv.take(i as int) =~= rv);
    out
}


// ---------------------------------------------------------------------------
// The pass
// ---------------------------------------------------------------------------

fn reduce_all(scalars: &Vec<ScalarExpr>) -> (r: Vec<ScalarExpr>)
    ensures
        r@ == scalars@.map_values(|e: ScalarExpr| reduced(e)),
{
    let mut out: Vec<ScalarExpr> = Vec::new();
    let mut i: usize = 0;
    while i < scalars.len()
        invariant
            i <= scalars.len(),
            out@ == scalars@.take(i as int).map_values(|e: ScalarExpr| reduced(e)),
        decreases scalars.len() - i,
    {
        let mut e = scalars[i].clone();
        e.reduce();
        out.push(e);
        i = i + 1;
        assert(out@ =~= scalars@.take(i as int).map_values(|e: ScalarExpr| reduced(e)));
    }
    assert(scalars@.take(i as int) =~= scalars@);
    out
}

fn simplify_predicates_exec(preds: &Vec<ScalarExpr>) -> (r: Vec<ScalarExpr>)
    ensures
        r@ == simplify_predicates(preds@),
{
    let mut out: Vec<ScalarExpr> = Vec::new();
    let mut i: usize = 0;
    assert(preds@.take(0) =~= Seq::<ScalarExpr>::empty());
    while i < preds.len()
        invariant
            i <= preds.len(),
            out@ == simplify_predicates(preds@.take(i as int)),
        decreases preds.len() - i,
    {
        assert(preds@.take(i + 1).drop_last() =~= preds@.take(i as int));
        let mut e = preds[i].clone();
        e.reduce();
        if !e.is_literal_true() {
            out.push(e);
        }
        i = i + 1;
    }
    assert(preds@.take(i as int) =~= preds@);
    out
}

fn any_unsatisfiable(preds: &Vec<ScalarExpr>) -> (r: bool)
    ensures
        r == some_unsatisfiable(preds@),
{
    let mut i: usize = 0;
    while i < preds.len()
        invariant
            i <= preds.len(),
            forall|j: int| 0 <= j < i ==> !(#[trigger] preds@[j] == ScalarExpr::Literal(Datum::False)
                || preds@[j] == ScalarExpr::Literal(Datum::Null)),
        decreases preds.len() - i,
    {
        if preds[i].is_literal_false_or_null() {
            return true;
        }
        i = i + 1;
    }
    false
}

fn is_empty_constant_exec(r: &RelationExpr) -> (b: bool)
    ensures
        b == is_empty_constant(r@),
{
    match r {
        RelationExpr::Constant { rows, .. } => rows.len() == 0,
        _ => false,
    }
}

fn has_empty_constant(inputs: &Vec<RelationExpr>) -> (b: bool)
    ensures
        b == exists|i: int|
            0 <= i < rels_view(inputs@).len() && is_empty_constant(#[trigger] rels_view(inputs@)[i]),
{
    proof {
        lemma_rels_view(inputs@);
    }
    let mut i: usize = 0;
    while i < inputs.len()
        invariant
            i <= inputs.len(),
            rels_view(inputs@).len() == inputs.len(),
            forall|j: int| 0 <= j < inputs.len() ==> #[trigger] rels_view(inputs@)[j] == rel_view(inputs@[j]),
            forall|j: int| 0 <= j < i ==> !is_empty_constant(#[trigger] rels_view(inputs@)[j]),
        decreases inputs.len() - i,
    {
        if is_empty_constant_exec(&inputs[i]) {
            assert(is_empty_constant(rels_view(inputs@)[i as int]));
            return true;
        }
        i = i + 1;
    }
    false
}

fn empty_constant(a: usize) -> (r: RelationExpr)
    ensures
        r@ == empty_rel(a as nat),
{
    let r = RelationExpr::Constant { rows: Vec::new(), typ: RelationType { arity: a } };
    assert(rows_view(Seq::<Vec<Datum>>::empty()) =~= Seq::<Row>::empty());
    r
}

proof fn lemma_constant_rows(rows: Seq<Vec<Datum>>, a: nat)
    requires
        forall|i: int| 0 <= i < rows_view(rows).len() ==> #[trigger] rows_view(rows)[i].len() == a,
    ensures
        forall|i: int| 0 <= i < rows.len() ==> #[trigger] rows[i].len() == a,
{
    assert forall|i: int| 0 <= i < rows.len() implies #[trigger] rows[i].len() == a by {
        assert(rows_view(rows)[i] == rows[i]@);
    }
}

/// One folding step on a node whose children are already folded; `a` is the
/// node's width.
fn fold_node_exec(r: RelationExpr, a: usize) -> (out: RelationExpr)
    requires
        wf(r@),
        a == arity(r@),
    ensures
        out@ == fold_node(r@),
{
    let ghost rv = r@;
    match r {
        RelationExpr::Reduce { input, group_key, aggregates } => {
            let ghost iv = *input;
            assert(rv == Rel::Reduce { input: Box::new(iv@), group_key: group_key@, aggregates: aggregates@ });
            assert(wf(iv@));
            match *input {
                RelationExpr::Constant { rows, typ } => {
                    proof {
                        assert(iv@ == Rel::Constant { rows: rows_view(rows@), arity: typ.arity as nat });
                        lemma_constant_rows(rows@, typ.arity as nat);
                    }
                    match reduce_constant(&rows, &group_key, &aggregates) {
                        Some(new_rows) => RelationExpr::Constant {
                            rows: new_rows,
                            typ: RelationType { arity: a },
                        },
                        None => RelationExpr::Reduce {
                            input: Box::new(RelationExpr::Constant { rows, typ }),
                            group_key,
                            aggregates,
                        },
                    }
                },
                other => RelationExpr::Reduce { input: Box::new(other), group_key, aggregates },
            }
        },
        RelationExpr::Threshold { input } => {
            let ghost iv = *input;
            assert(rv == Rel::Threshold { input: Box::new(iv@) });
            match *input {
                RelationExpr::Constant { rows, typ } => RelationExpr::Constant { rows, typ },
                other => RelationExpr::Threshold { input: Box::new(other) },
            }
        },
        RelationExpr::MapScalars { input, scalars } => {
            let ghost iv = *input;
            assert(rv == Rel::MapScalars { input: Box::new(iv@), scalars: scalars@ });
            let s = reduce_all(&scalars);
            match *input {
                RelationExpr::Constant { rows, typ } => {
                    assert(iv@ == Rel::Constant { rows: rows_view(rows@), arity: typ.arity as nat });
                    match map_constant(&rows, &s) {
                        Some(new_rows) => RelationExpr::Constant {
                            rows: new_rows,
                            typ: RelationType { arity: a },
                        },
                        None => RelationExpr::MapScalars {
                            input: Box::new(RelationExpr::Constant { rows, typ }),
                            scalars: s,
                        },
                    }
                },
                other => RelationExpr::MapScalars { input: Box::new(other), scalars: s },
            }
        },
        RelationExpr::Filter { input, predicates } => {
            let ghost iv = *input;
            assert(rv == Rel::Filter { input: Box::new(iv@), predicates: predicates@ });
            let p = simplify_predicates_exec(&predicates);
            if any_unsatisfiable(&p) {
                empty_constant(a)
            } else {
                match *input {
                    RelationExpr::Constant { rows, typ } => {
                        assert(iv@ == Rel::Constant { rows: rows_view(rows@), arity: typ.arity as nat });
                        match filter_constant(&rows, &p) {
                            Some(new_rows) => RelationExpr::Constant {
                                rows: new_rows,
                                typ: RelationType { arity: a },
                            },
                            None => RelationExpr::Filter {
                                input: Box::new(RelationExpr::Constant { rows, typ }),
                                predicates: p,
                            },
                        }
                    },
                    other => RelationExpr::Filter { input: Box::new(other), predicates: p },
                }
            }
        },
        RelationExpr::Project { input, outputs } => {
            let ghost iv = *input;
            assert(rv == Rel::Project { input: Box::new(iv@), outputs: outputs@ });
            assert(wf(iv@));
            match *input {
                RelationExpr::Constant { rows, typ } => {
                    proof {
                        assert(iv@ == Rel::Constant { rows: rows_view(rows@), arity: typ.arity as nat });
                        lemma_constant_rows(rows@, typ.arity as nat);
                    }
                    let new_rows = project_constant(&rows, &outputs);
                    RelationExpr::Constant { rows: new_rows, typ: RelationType { arity: a } }
                },
                other => RelationExpr::Project { input: Box::new(other), outputs },
            }
        },
        RelationExpr::Join { inputs } => {
            assert(rv == Rel::Join { inputs: rels_view(inputs@) });
            if has_empty_constant(&inputs) {
                empty_constant(a)
            } else {
                RelationExpr::Join { inputs }
            }
        },
        RelationExpr::Union { left, right } => {
            let ghost lv = *left;
            let ghost rtv = *right;
            assert(rv == Rel::Union { left: Box::new(lv@), right: Box::new(rtv@) });
            match (*left, *right) {
                (
                    RelationExpr::Constant { rows: mut rows_left, typ: tl },
                    RelationExpr::Constant { rows: mut rows_right, typ: tr },
                ) => {
                    let ghost l0 = rows_left@;
                    let ghost r0 = rows_right@;
                    assert(lv@ == Rel::Constant { rows: rows_view(l0), arity: tl.arity as nat });
                    assert(rtv@ == Rel::Constant { rows: rows_view(r0), arity: tr.arity as nat });
                    rows_left.append(&mut rows_right);
                    assert(rows_view(rows_left@) =~= rows_view(l0) + rows_view(r0));
                    RelationExpr::Constant { rows: rows_left, typ: RelationType { arity: a } }
                },
                (l, rt) => {
                    assert(l == lv && rt == rtv);
                    if is_empty_constant_exec(&l) {
                        rt
                    } else if is_empty_constant_exec(&rt) {
                        l
                    } else {
                        RelationExpr::Union { left: Box::new(l), right: Box::new(rt) }
                    }
                },
            }
        },
        other => other,
    }
}

/// The post-order folding pass over a whole plan.
fn fold_tree_exec(r: RelationExpr) -> (out: RelationExpr)
    requires
        wf(r@),
    ensures
        out@ == fold_tree(r@),
    decreases r,
{
    let ghost r0 = r;
    proof {
        lemma_fold_tree_wf(r@);
    }
    let c = match r {
        RelationExpr::Let { id, value, body } => {
            let v = fold_tree_exec(*value);
            let b = fold_tree_exec(*body);
            proof {
                lemma_fold_tree_wf(value@);
                lemma_fold_tree_wf(body@);
            }
            RelationExpr::Let { id, value: Box::new(v), body: Box::new(b) }
        },
        RelationExpr::Project { input, outputs } => {
            let i = fold_tree_exec(*input);
            proof {
                lemma_fold_tree_wf(input@);
            }
            RelationExpr::Project { input: Box::new(i), outputs }
        },
        RelationExpr::MapScalars { input, scalars } => {
            let i = fold_tree_exec(*input);
            proof {
                lemma_fold_tree_wf(input@);
            }
            RelationExpr::MapScalars { input: Box::new(i), scalars }
        },
        RelationExpr::Filter { input, predicates } => {
            let i = fold_tree_exec(*input);
            proof {
                lemma_fold_tree_wf(input@);
            }
            RelationExpr::Filter { input: Box::new(i), predicates }
        },
        RelationExpr::Reduce { input, group_key, aggregates } => {
            let i = fold_tree_exec(*input);
            proof {
                lemma_fold_tree_wf(input@);
            }
            RelationExpr::Reduce { input: Box::new(i), group_key, aggregates }
        },
        RelationExpr::TopK { input, group_key, order_key, limit } => {
            let i = fold_tree_exec(*input);
            proof {
                lemma_fold_tree_wf(input@);
            }
            RelationExpr::TopK { input: Box::new(i), group_key, order_key, limit }
        },
        RelationExpr::Negate { input } => {
            let i = fold_tree_exec(*input);
            proof {
                lemma_fold_tree_wf(input@);
            }
            RelationExpr::Negate { input: Box::new(i) }
        },
        RelationExpr::Threshold { input } => {
            let i = fold_tree_exec(*input);
            proof {
                lemma_fold_tree_wf(input@);
            }
            RelationExpr::Threshold { input: Box::new(i) }
        },
        RelationExpr::Union { left, right } => {
            let l = fold_tree_exec(*left);
            let rt = fold_tree_exec(*right);
            proof {
                lemma_fold_tree_wf(left@);
                lemma_fold_tree_wf(right@);
            }
            RelationExpr::Union { left: Box::new(l), right: Box::new(rt) }
        },
        RelationExpr::Join { inputs } => {
            proof {
                lemma_wf_all(rels_view(inputs@));
                lemma_fold_all_wf(rels_view(inputs@));
                assert(decreases_to!(r0 => r0->Join_inputs));
                assert(decreases_to!(r0->Join_inputs => r0->Join_inputs@));
            }
            let out = fold_inputs(inputs);
            RelationExpr::Join { inputs: out }
        },
        other => other,
    };
    let a = c.typ();
    fold_node_exec(c, a.arity)
}

/// Folds each input of a join.
fn fold_inputs(v: Vec<RelationExpr>) -> (out: Vec<RelationExpr>)
    requires
        wf_all(rels_view(v@)),
    ensures
        rels_view(out@) == fold_all(rels_view(v@)),
    decreases v@,
{
    let ghost v0 = v@;
    let mut v = v;
    if v.len() == 0 {
        proof {
            assert(rels_view(v@) =~= Seq::<Rel>::empty());
        }
        return v;
    }
    let last = v.pop().unwrap();
    proof {
        assert(v@ =~= v0.subrange(0, v0.len() - 1));
        assert(decreases_to!(v0 => v0.subrange(0, v0.len() - 1)));
        assert(decreases_to!(v0 => v0[v0.len() - 1]));
        assert(v0.drop_last() =~= v@);
        assert(rels_view(v0) == rels_view(v@).push(rel_view(last)));
        assert(rels_view(v0).drop_last() =~= rels_view(v@));
    }
    let mut rest = fold_inputs(v);
    let ghost rest0 = rest@;
    let y = fold_tree_exec(last);
    rest.push(y);
    proof {
        assert(rest@.drop_last() =~= rest0);
        assert(rest@.last() == y);
    }
    rest
}

impl FoldConstants {
    /// Folds every node of the plan, children before parents.
    pub fn transform(&self, relation: &mut RelationExpr, _metadata: &RelationType)
        requires
            wf(old(relation)@),
        ensures
            final(relation)@ == fold_tree(old(relation)@),
            wf(final(relation)@),
            arity(final(relation)@) == arity(old(relation)@),
            eval_rel(old(relation)@) is Some ==> final(relation)@ == (Rel::Constant {
                rows: eval_rel(old(relation)@)->Some_0,
                arity: arity(old(relation)@),
            }),
            forall|env: Map<u64, Seq<Row>>|
                eval_in(old(relation)@, env) is Some ==> #[trigger] eval_in(final(relation)@, env)
                    == eval_in(old(relation)@, env),
    {
        proof {
            lemma_fold_tree_wf(relation@);
            if eval_rel(relation@) is Some {
                lemma_fold_transparent(relation@);
            }
            assert forall|env: Map<u64, Seq<Row>>| eval_in(relation@, env) is Some implies #[trigger] eval_in(
                fold_tree(relation@),
                env,
            ) == eval_in(relation@, env) by {
                lemma_fold_preserves_eval(relation@, env);
            }
        }
        let r = take_relation(relation);
        *relation = fold_tree_exec(r);
    }

    /// One folding step on a node whose children are already folded;
    /// `metadata` is the node's schema.
    pub fn action(&self, relation: &mut RelationExpr, metadata: &RelationType)
        requires
            wf(old(relation)@),
            metadata.arity == arity(old(relation)@),
        ensures
            final(relation)@ == fold_node(old(relation)@),
            wf(final(relation)@),
            arity(final(relation)@) == arity(old(relation)@),
            eval_rel(old(relation)@) is Some ==> eval_rel(final(relation)@) == eval_rel(
                old(relation)@,
            ),
            forall|env: Map<u64, Seq<Row>>|
                eval_in(old(relation)@, env) is Some ==> #[trigger] eval_in(final(relation)@, env)
                    == eval_in(old(relation)@, env),
    {
        proof {
            lemma_fold_node_wf(relation@);
            if eval_rel(relation@) is Some {
                lemma_fold_node_eval(relation@);
            }
            assert forall|env: Map<u64, Seq<Row>>| eval_in(relation@, env) is Some implies #[trigger] eval_in(
                fold_node(relation@),
                env,
            ) == eval_in(relation@, env) by {
                lemma_fold_node_eval_in(relation@, env);
            }
        }
        let r = take_relation(relation);
        *relation = fold_node_exec(r, metadata.arity);
    }
}

/// Moves the plan out of its slot, leaving an empty relation behind.
pub fn take_relation(slot: &mut RelationExpr) -> (r: RelationExpr)
    ensures
        r == *old(slot),
        final(slot)@ == empty_rel(0),
{
    let mut r = empty_constant(0);
    core::mem::swap(slot, &mut r);
    r
}

} // verus!
