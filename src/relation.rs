//! Relational plans, their mathematical model, schema and reference semantics.
use vstd::prelude::*;
use crate::scalar::{Datum, ScalarExpr, EvalError, denote};

verus! {

/// The shape of a relation's rows: how many columns each row has.
#[derive(Clone, Copy, Debug, PartialEq, Eq, Structural)]
pub struct RelationType {
    pub arity: usize,
}

#[derive(Clone, Copy, Debug, PartialEq, Eq, Structural)]
pub enum AggregateFunc {
    /// The number of values that are not `Null`.
    Count,
    /// The sum of the integer values, `Null` when there are none.
    SumInt64,
}

#[derive(Clone, Debug)]
pub struct AggregateExpr {
    pub func: AggregateFunc,
    pub expr: ScalarExpr,
}

/// A relational-algebra plan. Each node owns its children.
#[derive(Debug)]
pub enum RelationExpr {
    Constant { rows: Vec<Vec<Datum>>, typ: RelationType },
    Get { id: u64, typ: RelationType },
    Let { id: u64, value: Box<RelationExpr>, body: Box<RelationExpr> },
    /// Each row narrowed to the listed columns, in that order.
    Project { input: Box<RelationExpr>, outputs: Vec<usize> },
    /// Each row extended by the value of each scalar, left to right; a scalar
    /// sees the columns appended before it.
    MapScalars { input: Box<RelationExpr>, scalars: Vec<ScalarExpr> },
    /// The rows on which every predicate is `True`.
    Filter { input: Box<RelationExpr>, predicates: Vec<ScalarExpr> },
    Join { inputs: Vec<RelationExpr> },
    /// One row per distinct value of the `group_key` columns: the key, then
    /// each aggregate over the group's rows.
    Reduce { input: Box<RelationExpr>, group_key: Vec<usize>, aggregates: Vec<AggregateExpr> },
    TopK {
        input: Box<RelationExpr>,
        group_key: Vec<usize>,
        order_key: Vec<usize>,
        limit: Option<usize>,
    },
    Negate { input: Box<RelationExpr> },
    Threshold { input: Box<RelationExpr> },
    Union { left: Box<RelationExpr>, right: Box<RelationExpr> },
}

pub type Row = Seq<Datum>;

/// The mathematical model of a plan: the same tree with sequences in place
/// of vectors.
pub enum Rel {
    Constant { rows: Seq<Row>, arity: nat },
    Get { id: u64, arity: nat },
    Let { id: u64, value: Box<Rel>, body: Box<Rel> },
    Project { input: Box<Rel>, outputs: Seq<usize> },
    MapScalars { input: Box<Rel>, scalars: Seq<ScalarExpr> },
    Filter { input: Box<Rel>, predicates: Seq<ScalarExpr> },
    Join { inputs: Seq<Rel> },
    Reduce { input: Box<Rel>, group_key: Seq<usize>, aggregates: Seq<AggregateExpr> },
    TopK { input: Box<Rel>, group_key: Seq<usize>, order_key: Seq<usize>, limit: Option<usize> },
    Negate { input: Box<Rel> },
    Threshold { input: Box<Rel> },
    Union { left: Box<Rel>, right: Box<Rel> },
}

pub open spec fn rows_view(rows: Seq<Vec<Datum>>) -> Seq<Row> {
    rows.map_values(|r: Vec<Datum>| r@)
}

pub open spec fn rel_view(r: RelationExpr) -> Rel
    decreases r,
{
    match r {
        RelationExpr::Constant { rows, typ } => Rel::Constant {
            rows: rows_view(rows@),
            arity: typ.arity as nat,
        },
        RelationExpr::Get { id, typ } => Rel::Get { id, arity: typ.arity as nat },
        RelationExpr::Let { id, value, body } => Rel::Let {
            id,
            value: Box::new(rel_view(*value)),
            body: Box::new(rel_view(*body)),
        },
        RelationExpr::Project { input, outputs } => Rel::Project {
            input: Box::new(rel_view(*input)),
            outputs: outputs@,
        },
        RelationExpr::MapScalars { input, scalars } => Rel::MapScalars {
            input: Box::new(rel_view(*input)),
            scalars: scalars@,
        },
        RelationExpr::Filter { input, predicates } => Rel::Filter {
            input: Box::new(rel_view(*input)),
            predicates: predicates@,
        },
        RelationExpr::Join { inputs } => Rel::Join { inputs: rels_view(inputs@) },
        RelationExpr::Reduce { input, group_key, aggregates } => Rel::Reduce {
            input: Box::new(rel_view(*input)),
            group_key: group_key@,
            aggregates: aggregates@,
        },
        RelationExpr::TopK { input, group_key, order_key, limit } => Rel::TopK {
            input: Box::new(rel_view(*input)),
            group_key: group_key@,
            order_key: order_key@,
            limit,
        },
        RelationExpr::Negate { input } => Rel::Negate { input: Box::new(rel_view(*input)) },
        RelationExpr::Threshold { input } => Rel::Threshold { input: Box::new(rel_view(*input)) },
        RelationExpr::Union { left, right } => Rel::Union {
            left: Box::new(rel_view(*left)),
            right: Box::new(rel_view(*right)),
        },
    }
}

pub open spec fn rels_view(s: Seq<RelationExpr>) -> Seq<Rel>
    decreases s,
{
    if s.len() == 0 {
        Seq::empty()
    } else {
        rels_view(s.drop_last()).push(rel_view(s.last()))
    }
}

impl View for RelationExpr {
    type V = Rel;

    open spec fn view(&self) -> Rel {
        rel_view(*self)
    }
}

/// The number of columns of the rows a plan produces.
pub open spec fn arity(r: Rel) -> nat
    decreases r,
{
    match r {
        Rel::Constant { arity, .. } => arity,
        Rel::Get { arity, .. } => arity,
        Rel::Let { body, .. } => arity(*body),
        Rel::Project { outputs, .. } => outputs.len(),
        Rel::MapScalars { input, scalars } => arity(*input) + scalars.len(),
        Rel::Filter { input, .. } => arity(*input),
        Rel::Join { inputs } => arity_sum(inputs),
        Rel::Reduce { group_key, aggregates, .. } => group_key.len() + aggregates.len(),
        Rel::TopK { input, .. } => arity(*input),
        Rel::Negate { input } => arity(*input),
        Rel::Threshold { input } => arity(*input),
        Rel::Union { left, .. } => arity(*left),
    }
}

pub open spec fn arity_sum(s: Seq<Rel>) -> nat
    decreases s,
{
    if s.len() == 0 {
        0
    } else {
        arity_sum(s.drop_last()) + arity(s.last())
    }
}

/// A plan is well formed when its rows have the width its schema says,
/// column references of projections and groupings are in range, both sides
/// of a union have the same width, and every width fits in a `usize`.
pub open spec fn wf(r: Rel) -> bool
    decreases r,
{
    arity(r) <= usize::MAX && match r {
        Rel::Constant { rows, arity } => forall|i: int|
            0 <= i < rows.len() ==> #[trigger] rows[i].len() == arity,
        Rel::Get { .. } => true,
        Rel::Let { value, body, .. } => wf(*value) && wf(*body),
        Rel::Project { input, outputs } => wf(*input) && forall|i: int|
            0 <= i < outputs.len() ==> #[trigger] outputs[i] < arity(*input),
        Rel::MapScalars { input, .. } => wf(*input),
        Rel::Filter { input, .. } => wf(*input),
        Rel::Join { inputs } => wf_all(inputs),
        Rel::Reduce { input, group_key, .. } => wf(*input) && forall|i: int|
            0 <= i < group_key.len() ==> #[trigger] group_key[i] < arity(*input),
        Rel::TopK { input, .. } => wf(*input),
        Rel::Negate { input } => wf(*input),
        Rel::Threshold { input } => wf(*input),
        Rel::Union { left, right } => wf(*left) && wf(*right) && arity(*left) == arity(*right),
    }
}

pub open spec fn wf_all(s: Seq<Rel>) -> bool
    decreases s,
{
    if s.len() == 0 {
        true
    } else {
        wf_all(s.drop_last()) && wf(s.last())
    }
}

// ---------------------------------------------------------------------------
// Reference semantics
// ---------------------------------------------------------------------------

/// Whether a row satisfies every predicate, checked left to right: the first
/// predicate that is not `True` decides, and an error there is the result.
pub open spec fn passes(preds: Seq<ScalarExpr>, row: Row) -> Result<bool, EvalError>
    decreases preds.len(),
{
    if preds.len() == 0 {
        Ok(true)
    } else {
        match passes(preds.drop_last(), row) {
            Ok(all) => if all {
                match denote(preds.last(), row) {
                    Ok(d) => Ok(d == Datum::True),
                    Err(e) => Err(e),
                }
            } else {
                Ok(false)
            },
            Err(e) => Err(e),
        }
    }
}

/// The rows that satisfy every predicate, in order; `None` when evaluating
/// a predicate fails on some row.
pub open spec fn filter_rows(rows: Seq<Row>, preds: Seq<ScalarExpr>) -> Option<Seq<Row>>
    decreases rows.len(),
{
    if rows.len() == 0 {
        Some(Seq::empty())
    } else {
        match filter_rows(rows.drop_last(), preds) {
            None => None,
            Some(acc) => match passes(preds, rows.last()) {
                Ok(keep) => if keep {
                    Some(acc.push(rows.last()))
                } else {
                    Some(acc)
                },
                Err(_) => None,
            },
        }
    }
}

/// A row extended by the value of each scalar, each one evaluated on the row
/// as extended so far.
pub open spec fn extend_row(row: Row, scalars: Seq<ScalarExpr>) -> Option<Row>
    decreases scalars.len(),
{
    if scalars.len() == 0 {
        Some(row)
    } else {
        match extend_row(row, scalars.drop_last()) {
            None => None,
            Some(r) => match denote(scalars.last(), r) {
                Ok(d) => Some(r.push(d)),
                Err(_) => None,
            },
        }
    }
}

pub open spec fn map_rows(rows: Seq<Row>, scalars: Seq<ScalarExpr>) -> Option<Seq<Row>>
    decreases rows.len(),
{
    if rows.len() == 0 {
        Some(Seq::empty())
    } else {
        match map_rows(rows.drop_last(), scalars) {
            None => None,
            Some(acc) => match extend_row(rows.last(), scalars) {
                Some(r) => Some(acc.push(r)),
                None => None,
            },
        }
    }
}

pub open spec fn project_row(row: Row, cols: Seq<usize>) -> Row {
    Seq::new(cols.len(), |i: int| row[cols[i] as int])
}

pub open spec fn project_rows(rows: Seq<Row>, cols: Seq<usize>) -> Seq<Row> {
    Seq::new(rows.len(), |i: int| project_row(rows[i], cols))
}

/// The distinct values of `key` over the rows, in order of first appearance.
pub open spec fn group_keys(rows: Seq<Row>, key: Seq<usize>) -> Seq<Row>
    decreases rows.len(),
{
    if rows.len() == 0 {
        Seq::empty()
    } else {
        let ks = group_keys(rows.drop_last(), key);
        let k = project_row(rows.last(), key);
        if ks.contains(k) {
            ks
        } else {
            ks.push(k)
        }
    }
}

/// The rows whose `key` columns equal `k`, in order.
pub open spec fn group_rows(rows: Seq<Row>, key: Seq<usize>, k: Row) -> Seq<Row>
    decreases rows.len(),
{
    if rows.len() == 0 {
        Seq::empty()
    } else {
        let prev = group_rows(rows.drop_last(), key, k);
        if project_row(rows.last(), key) == k {
            prev.push(rows.last())
        } else {
            prev
        }
    }
}

/// The values of `e` over the rows; `None` when one evaluation fails.
pub open spec fn column_values(rows: Seq<Row>, e: ScalarExpr) -> Option<Seq<Datum>>
    decreases rows.len(),
{
    if rows.len() == 0 {
        Some(Seq::empty())
    } else {
        match column_values(rows.drop_last(), e) {
            None => None,
            Some(acc) => match denote(e, rows.last()) {
                Ok(d) => Some(acc.push(d)),
                Err(_) => None,
            },
        }
    }
}

pub open spec fn count_non_null(vals: Seq<Datum>) -> nat
    decreases vals.len(),
{
    if vals.len() == 0 {
        0
    } else {
        count_non_null(vals.drop_last()) + if vals.last() == Datum::Null {
            0nat
        } else {
            1nat
        }
    }
}

/// The sum of the integer values, or `None` when there are none.
pub open spec fn sum_ints(vals: Seq<Datum>) -> Option<int>
    decreases vals.len(),
{
    if vals.len() == 0 {
        None
    } else {
        let prev = sum_ints(vals.drop_last());
        match vals.last() {
            Datum::Int64(x) => match prev {
                Some(s) => Some(s + x),
                None => Some(x as int),
            },
            _ => prev,
        }
    }
}

/// Whether every partial sum of the integer values fits in an `i64`.
pub open spec fn sums_fit(vals: Seq<Datum>) -> bool
    decreases vals.len(),
{
    if vals.len() == 0 {
        true
    } else {
        sums_fit(vals.drop_last()) && match sum_ints(vals) {
            Some(s) => i64::MIN <= s <= i64::MAX,
            None => true,
        }
    }
}

/// The value of an aggregate over its input values; `None` when the result
/// does not fit in an `i64`.
pub open spec fn aggregate(f: AggregateFunc, vals: Seq<Datum>) -> Option<Datum> {
    match f {
        AggregateFunc::Count => if count_non_null(vals) <= i64::MAX {
            Some(Datum::Int64(count_non_null(vals) as i64))
        } else {
            None
        },
        AggregateFunc::SumInt64 => if sums_fit(vals) {
            match sum_ints(vals) {
                Some(s) => Some(Datum::Int64(s as i64)),
                None => Some(Datum::Null),
            }
        } else {
            None
        },
    }
}

/// The aggregate results of one group, appended to `acc`.
pub open spec fn aggregate_group(group: Seq<Row>, aggs: Seq<AggregateExpr>) -> Option<Row>
    decreases aggs.len(),
{
    if aggs.len() == 0 {
        Some(Seq::empty())
    } else {
        match aggregate_group(group, aggs.drop_last()) {
            None => None,
            Some(acc) => match column_values(group, aggs.last().expr) {
                None => None,
                Some(vals) => match aggregate(aggs.last().func, vals) {
                    None => None,
                    Some(d) => Some(acc.push(d)),
                },
            },
        }
    }
}

/// One output row per group key: the key, then the aggregate results.
pub open spec fn reduce_groups(rows: Seq<Row>, key: Seq<usize>, keys: Seq<Row>, aggs: Seq<
    AggregateExpr,
>) -> Option<Seq<Row>>
    decreases keys.len(),
{
    if keys.len() == 0 {
        Some(Seq::empty())
    } else {
        match reduce_groups(rows, key, keys.drop_last(), aggs) {
            None => None,
            Some(acc) => match aggregate_group(group_rows(rows, key, keys.last()), aggs) {
                None => None,
                Some(vals) => Some(acc.push(keys.last() + vals)),
            },
        }
    }
}

/// Grouping with aggregation, groups in order of their key's first appearance.
pub open spec fn reduce_rows(rows: Seq<Row>, key: Seq<usize>, aggs: Seq<AggregateExpr>) -> Option<
    Seq<Row>,
> {
    reduce_groups(rows, key, group_keys(rows, key), aggs)
}

/// The rows a plan evaluates to when that is known without any input:
/// `None` for plans that read a named input, for operators without an
/// evaluation rule here (`Let`, `TopK`, `Negate`), and where evaluating a
/// scalar or an aggregate fails. A join is known only when one of its inputs
/// is known to be empty.
pub open spec fn eval_rel(r: Rel) -> Option<Seq<Row>>
    decreases r,
{
    match r {
        Rel::Constant { rows, .. } => Some(rows),
        Rel::Project { input, outputs } => match eval_rel(*input) {
            Some(rows) => Some(project_rows(rows, outputs)),
            None => None,
        },
        Rel::MapScalars { input, scalars } => match eval_rel(*input) {
            Some(rows) => map_rows(rows, scalars),
            None => None,
        },
        Rel::Filter { input, predicates } => match eval_rel(*input) {
            Some(rows) => filter_rows(rows, predicates),
            None => None,
        },
        Rel::Join { inputs } => if some_known_empty(inputs) {
            Some(Seq::empty())
        } else {
            None
        },
        Rel::Reduce { input, group_key, aggregates } => match eval_rel(*input) {
            Some(rows) => reduce_rows(rows, group_key, aggregates),
            None => None,
        },
        Rel::Threshold { input } => eval_rel(*input),
        Rel::Union { left, right } => match (eval_rel(*left), eval_rel(*right)) {
            (Some(a), Some(b)) => Some(a + b),
            _ => None,
        },
        _ => None,
    }
}

pub open spec fn some_known_empty(s: Seq<Rel>) -> bool
    decreases s,
{
    if s.len() == 0 {
        false
    } else {
        some_known_empty(s.drop_last()) || eval_rel(s.last()) == Some(Seq::<Row>::empty())
    }
}


// ---------------------------------------------------------------------------
// Facts about the model
// ---------------------------------------------------------------------------

pub proof fn lemma_rels_view(s: Seq<RelationExpr>)
    ensures
        rels_view(s).len() == s.len(),
        forall|i: int| 0 <= i < s.len() ==> #[trigger] rels_view(s)[i] == rel_view(s[i]),
    decreases s.len(),
{
    if s.len() > 0 {
        lemma_rels_view(s.drop_last());
    }
}

pub proof fn lemma_wf_all(s: Seq<Rel>)
    ensures
        wf_all(s) <==> forall|i: int| 0 <= i < s.len() ==> #[trigger] wf(s[i]),
    decreases s.len(),
{
    if s.len() > 0 {
        lemma_wf_all(s.drop_last());
        if forall|i: int| 0 <= i < s.len() ==> #[trigger] wf(s[i]) {
            assert(wf(s[s.len() - 1]));
            assert forall|i: int| 0 <= i < s.drop_last().len() implies #[trigger] wf(
                s.drop_last()[i],
            ) by {
                assert(s.drop_last()[i] == s[i]);
            }
        }
        if wf_all(s) {
            assert forall|i: int| 0 <= i < s.len() implies #[trigger] wf(s[i]) by {
                if i < s.len() - 1 {
                    assert(s.drop_last()[i] == s[i]);
                }
            }
        }
    }
}

/// The total width of a prefix of a sequence of plans never exceeds the
/// total width of the sequence.
pub proof fn lemma_arity_sum_prefix(s: Seq<Rel>, i: int)
    requires
        0 <= i < s.len(),
    ensures
        arity_sum(s.take(i + 1)) == arity_sum(s.take(i)) + arity(s[i]),
        arity_sum(s.take(i + 1)) <= arity_sum(s),
    decreases s.len(),
{
    assert(s.take(i + 1).drop_last() =~= s.take(i));
    if i + 1 < s.len() {
        lemma_arity_sum_prefix(s.drop_last(), i);
        assert(s.drop_last().take(i + 1) =~= s.take(i + 1));
        assert(s.drop_last().take(i) =~= s.take(i));
    } else {
        assert(s.take(i + 1) =~= s);
    }
}

impl RelationExpr {
    /// The schema of the plan, computed from its current children.
    pub fn typ(&self) -> (t: RelationType)
        requires
            wf(self@),
        ensures
            t.arity == arity(self@),
        decreases *self,
    {
        match self {
            RelationExpr::Constant { typ, .. } => *typ,
            RelationExpr::Get { typ, .. } => *typ,
            RelationExpr::Let { body, .. } => body.typ(),
            RelationExpr::Project { outputs, .. } => RelationType { arity: outputs.len() },
            RelationExpr::MapScalars { input, scalars } => {
                let t = input.typ();
                RelationType { arity: t.arity + scalars.len() }
            },
            RelationExpr::Filter { input, .. } => input.typ(),
            RelationExpr::Join { inputs } => {
                let ghost s = rels_view(inputs@);
                proof {
                    lemma_rels_view(inputs@);
                    lemma_wf_all(s);
                    assert(s.take(0) =~= Seq::<Rel>::empty());
                }
                let mut total: usize = 0;
                let mut i: usize = 0;
                while i < inputs.len()
                    invariant
                        i <= inputs.len(),
                        *self is Join,
                        self->Join_inputs == *inputs,
                        s == rels_view(inputs@),
                        s.len() == inputs.len(),
                        forall|j: int| 0 <= j < s.len() ==> #[trigger] s[j] == rel_view(inputs@[j]),
                        forall|j: int| 0 <= j < s.len() ==> #[trigger] wf(s[j]),
                        arity_sum(s) <= usize::MAX,
                        total == arity_sum(s.take(i as int)),
                    decreases inputs.len() - i,
                {
                    proof {
                        lemma_arity_sum_prefix(s, i as int);
                        assert(s[i as int] == rel_view(inputs@[i as int]));
                        assert(decreases_to!(*self => self->Join_inputs));
                        assert(decreases_to!(*inputs => inputs@));
                        assert(decreases_to!(inputs@ => inputs@[i as int]));
                    }
                    let t = inputs[i].typ();
                    total = total + t.arity;
                    i = i + 1;
                }
                proof {
                    assert(s.take(i as int) =~= s);
                }
                RelationType { arity: total }
            },
            RelationExpr::Reduce { group_key, aggregates, .. } => RelationType {
                arity: group_key.len() + aggregates.len(),
            },
            RelationExpr::TopK { input, .. } => input.typ(),
            RelationExpr::Negate { input } => input.typ(),
            RelationExpr::Threshold { input } => input.typ(),
            RelationExpr::Union { left, .. } => left.typ(),
        }
    }
}

} // verus!
