//! Passes that rewrite the predicates of every `Filter` in a plan.
use vstd::prelude::*;
use crate::scalar::{Datum, ScalarExpr};
use crate::relation::{
    Rel, RelationExpr, RelationType, Row, arity, arity_sum, wf, wf_all, rels_view, passes, filter_rows,
    eval_rel, some_known_empty,
};
use crate::boolean::{
    demorgans, demorgans_spec, undistribute_and, undistribute_spec, lemma_demorgans_equivalent,
    negation_pushed, lemma_demorgans_pushed_unchanged,
};
use crate::undistribute_laws::{outcome, same_outcomes, lemma_undistribute_same_outcomes};
use crate::fold::take_relation;
use crate::fold_lemmas::{eval_in, eval_join};

verus! {

/// The predicate rewrites a pass can apply.
#[derive(Clone, Copy, Debug, PartialEq, Eq, Structural)]
pub enum PredicateRewrite {
    DeMorgans,
    UndistributeAnd,
}

pub open spec fn rewrite_spec(rw: PredicateRewrite, e: ScalarExpr) -> ScalarExpr {
    match rw {
        PredicateRewrite::DeMorgans => demorgans_spec(e),
        PredicateRewrite::UndistributeAnd => undistribute_spec(e),
    }
}

pub open spec fn rewrite_all(rw: PredicateRewrite, preds: Seq<ScalarExpr>) -> Seq<ScalarExpr> {
    preds.map_values(|p: ScalarExpr| rewrite_spec(rw, p))
}

/// The rewrite applied to the predicates of one node, if it is a `Filter`.
pub open spec fn rewrite_node(rw: PredicateRewrite, r: Rel) -> Rel {
    match r {
        Rel::Filter { input, predicates } => Rel::Filter {
            input,
            predicates: rewrite_all(rw, predicates),
        },
        _ => r,
    }
}

/// The rewrite applied to the predicates of every `Filter` in the plan.
pub open spec fn rewrite_tree(rw: PredicateRewrite, r: Rel) -> Rel
    decreases r,
{
    match r {
        Rel::Let { id, value, body } => Rel::Let {
            id,
            value: Box::new(rewrite_tree(rw, *value)),
            body: Box::new(rewrite_tree(rw, *body)),
        },
        Rel::Project { input, outputs } => Rel::Project {
            input: Box::new(rewrite_tree(rw, *input)),
            outputs,
        },
        Rel::MapScalars { input, scalars } => Rel::MapScalars {
            input: Box::new(rewrite_tree(rw, *input)),
            scalars,
        },
        Rel::Filter { input, predicates } => Rel::Filter {
            input: Box::new(rewrite_tree(rw, *input)),
            predicates: rewrite_all(rw, predicates),
        },
        Rel::Join { inputs } => Rel::Join { inputs: rewrite_seq(rw, inputs) },
        Rel::Reduce { input, group_key, aggregates } => Rel::Reduce {
            input: Box::new(rewrite_tree(rw, *input)),
            group_key,
            aggregates,
        },
        Rel::TopK { input, group_key, order_key, limit } => Rel::TopK {
            input: Box::new(rewrite_tree(rw, *input)),
            group_key,
            order_key,
            limit,
        },
        Rel::Negate { input } => Rel::Negate { input: Box::new(rewrite_tree(rw, *input)) },
        Rel::Threshold { input } => Rel::Threshold { input: Box::new(rewrite_tree(rw, *input)) },
        Rel::Union { left, right } => Rel::Union {
            left: Box::new(rewrite_tree(rw, *left)),
            right: Box::new(rewrite_tree(rw, *right)),
        },
        _ => r,
    }
}

pub open spec fn rewrite_seq(rw: PredicateRewrite, s: Seq<Rel>) -> Seq<Rel>
    decreases s,
{
    if s.len() == 0 {
        Seq::empty()
    } else {
        rewrite_seq(rw, s.drop_last()).push(rewrite_tree(rw, s.last()))
    }
}

/// Rewriting predicates changes neither the schema nor well-formedness.
pub proof fn lemma_rewrite_tree_wf(rw: PredicateRewrite, r: Rel)
    ensures
        arity(rewrite_tree(rw, r)) == arity(r),
        wf(r) ==> wf(rewrite_tree(rw, r)),
    decreases r,
{
    match r {
        Rel::Let { value, body, .. } => {
            lemma_rewrite_tree_wf(rw, *value);
            lemma_rewrite_tree_wf(rw, *body);
        },
        Rel::Join { inputs } => {
            lemma_rewrite_seq_wf(rw, inputs);
        },
        Rel::Union { left, right } => {
            lemma_rewrite_tree_wf(rw, *left);
            lemma_rewrite_tree_wf(rw, *right);
        },
        Rel::Project { input, .. } => lemma_rewrite_tree_wf(rw, *input),
        Rel::MapScalars { input, .. } => lemma_rewrite_tree_wf(rw, *input),
        Rel::Filter { input, .. } => lemma_rewrite_tree_wf(rw, *input),
        Rel::Reduce { input, .. } => lemma_rewrite_tree_wf(rw, *input),
        Rel::TopK { input, .. } => lemma_rewrite_tree_wf(rw, *input),
        Rel::Negate { input } => lemma_rewrite_tree_wf(rw, *input),
        Rel::Threshold { input } => lemma_rewrite_tree_wf(rw, *input),
        _ => {},
    }
}

pub proof fn lemma_rewrite_seq_wf(rw: PredicateRewrite, s: Seq<Rel>)
    ensures
        arity_sum(rewrite_seq(rw, s)) == arity_sum(s),
        wf_all(s) ==> wf_all(rewrite_seq(rw, s)),
    decreases s,
{
    if s.len() > 0 {
        lemma_rewrite_seq_wf(rw, s.drop_last());
        lemma_rewrite_tree_wf(rw, s.last());
        let t = rewrite_seq(rw, s);
        assert(t.drop_last() =~= rewrite_seq(rw, s.drop_last()));
    }
}

proof fn lemma_rewrite_same_outcomes(rw: PredicateRewrite, e: ScalarExpr)
    ensures
        same_outcomes(rewrite_spec(rw, e), e),
{
    match rw {
        PredicateRewrite::DeMorgans => {
            lemma_demorgans_equivalent(e);
            assert forall|row: Seq<Datum>| #[trigger] outcome(demorgans_spec(e), row) == outcome(e, row) by {
                assert(crate::scalar::denote(demorgans_spec(e), row) == crate::scalar::denote(e, row));
            }
        },
        PredicateRewrite::UndistributeAnd => lemma_undistribute_same_outcomes(e),
    }
}

proof fn lemma_passes_rewrite(rw: PredicateRewrite, preds: Seq<ScalarExpr>, row: Row)
    ensures
        (passes(rewrite_all(rw, preds), row) is Ok) == (passes(preds, row) is Ok),
        passes(preds, row) is Ok ==> passes(rewrite_all(rw, preds), row) == passes(preds, row),
    decreases preds.len(),
{
    if preds.len() > 0 {
        let p = preds.drop_last();
        lemma_passes_rewrite(rw, p, row);
        assert(rewrite_all(rw, preds).drop_last() =~= rewrite_all(rw, p));
        assert(rewrite_all(rw, preds).last() == rewrite_spec(rw, preds.last()));
        lemma_rewrite_same_outcomes(rw, preds.last());
        assert(outcome(rewrite_spec(rw, preds.last()), row) == outcome(preds.last(), row));
    }
}

proof fn lemma_filter_rows_rewrite(rw: PredicateRewrite, rows: Seq<Row>, preds: Seq<ScalarExpr>)
    ensures
        filter_rows(rows, rewrite_all(rw, preds)) == filter_rows(rows, preds),
    decreases rows.len(),
{
    if rows.len() > 0 {
        lemma_filter_rows_rewrite(rw, rows.drop_last(), preds);
        lemma_passes_rewrite(rw, preds, rows.last());
    }
}

/// Rewriting predicates keeps what every plan evaluates to.
pub proof fn lemma_rewrite_tree_eval(rw: PredicateRewrite, r: Rel)
    ensures
        eval_rel(rewrite_tree(rw, r)) == eval_rel(r),
    decreases r,
{
    match r {
        Rel::Let { value, body, .. } => {
            lemma_rewrite_tree_eval(rw, *value);
            lemma_rewrite_tree_eval(rw, *body);
        },
        Rel::Join { inputs } => {
            lemma_rewrite_seq_eval(rw, inputs);
        },
        Rel::Union { left, right } => {
            lemma_rewrite_tree_eval(rw, *left);
            lemma_rewrite_tree_eval(rw, *right);
        },
        Rel::Filter { input, predicates } => {
            lemma_rewrite_tree_eval(rw, *input);
            match eval_rel(*input) {
                Some(rows) => lemma_filter_rows_rewrite(rw, rows, predicates),
                None => {},
            }
        },
        Rel::Project { input, .. } => lemma_rewrite_tree_eval(rw, *input),
        Rel::MapScalars { input, .. } => lemma_rewrite_tree_eval(rw, *input),
        Rel::Reduce { input, .. } => lemma_rewrite_tree_eval(rw, *input),
        Rel::TopK { input, .. } => lemma_rewrite_tree_eval(rw, *input),
        Rel::Negate { input } => lemma_rewrite_tree_eval(rw, *input),
        Rel::Threshold { input } => lemma_rewrite_tree_eval(rw, *input),
        _ => {},
    }
}

/// Rewriting predicates keeps what every plan evaluates to, under any
/// binding of its named inputs.
pub proof fn lemma_rewrite_tree_eval_in(rw: PredicateRewrite, r: Rel, env: Map<u64, Seq<Row>>)
    ensures
        eval_in(rewrite_tree(rw, r), env) == eval_in(r, env),
    decreases r,
{
    match r {
        Rel::Let { id, value, body } => {
            lemma_rewrite_tree_eval_in(rw, *value, env);
            if eval_in(*value, env) is Some {
                lemma_rewrite_tree_eval_in(rw, *body, env.insert(id, eval_in(*value, env)->Some_0));
            }
        },
        Rel::Join { inputs } => {
            lemma_rewrite_seq_eval_in(rw, inputs, env);
        },
        Rel::Union { left, right } => {
            lemma_rewrite_tree_eval_in(rw, *left, env);
            lemma_rewrite_tree_eval_in(rw, *right, env);
        },
        Rel::Filter { input, predicates } => {
            lemma_rewrite_tree_eval_in(rw, *input, env);
            match eval_in(*input, env) {
                Some(rows) => lemma_filter_rows_rewrite(rw, rows, predicates),
                None => {},
            }
        },
        Rel::Project { input, .. } => lemma_rewrite_tree_eval_in(rw, *input, env),
        Rel::MapScalars { input, .. } => lemma_rewrite_tree_eval_in(rw, *input, env),
        Rel::Reduce { input, .. } => lemma_rewrite_tree_eval_in(rw, *input, env),
        Rel::TopK { input, .. } => lemma_rewrite_tree_eval_in(rw, *input, env),
        Rel::Negate { input } => lemma_rewrite_tree_eval_in(rw, *input, env),
        Rel::Threshold { input } => lemma_rewrite_tree_eval_in(rw, *input, env),
        _ => {},
    }
}

proof fn lemma_rewrite_seq_eval_in(rw: PredicateRewrite, s: Seq<Rel>, env: Map<u64, Seq<Row>>)
    ensures
        eval_join(rewrite_seq(rw, s), env) == eval_join(s, env),
    decreases s,
{
    if s.len() > 0 {
        lemma_rewrite_seq_eval_in(rw, s.drop_last(), env);
        lemma_rewrite_tree_eval_in(rw, s.last(), env);
        let t = rewrite_seq(rw, s);
        assert(t.drop_last() =~= rewrite_seq(rw, s.drop_last()));
    }
}

proof fn lemma_rewrite_seq_eval(rw: PredicateRewrite, s: Seq<Rel>)
    ensures
        some_known_empty(rewrite_seq(rw, s)) == some_known_empty(s),
    decreases s,
{
    if s.len() > 0 {
        lemma_rewrite_seq_eval(rw, s.drop_last());
        lemma_rewrite_tree_eval(rw, s.last());
        let t = rewrite_seq(rw, s);
        assert(t.drop_last() =~= rewrite_seq(rw, s.drop_last()));
    }
}

/// Whether every predicate of every `Filter` in the plan satisfies `f`.
pub open spec fn all_predicates(r: Rel, f: spec_fn(ScalarExpr) -> bool) -> bool
    decreases r,
{
    match r {
        Rel::Let { value, body, .. } => all_predicates(*value, f) && all_predicates(*body, f),
        Rel::Project { input, .. } => all_predicates(*input, f),
        Rel::MapScalars { input, .. } => all_predicates(*input, f),
        Rel::Filter { input, predicates } => all_predicates(*input, f) && forall|i: int|
            0 <= i < predicates.len() ==> f(#[trigger] predicates[i]),
        Rel::Join { inputs } => all_predicates_seq(inputs, f),
        Rel::Reduce { input, .. } => all_predicates(*input, f),
        Rel::TopK { input, .. } => all_predicates(*input, f),
        Rel::Negate { input } => all_predicates(*input, f),
        Rel::Threshold { input } => all_predicates(*input, f),
        Rel::Union { left, right } => all_predicates(*left, f) && all_predicates(*right, f),
        _ => true,
    }
}

pub open spec fn all_predicates_seq(s: Seq<Rel>, f: spec_fn(ScalarExpr) -> bool) -> bool
    decreases s,
{
    if s.len() == 0 {
        true
    } else {
        all_predicates_seq(s.drop_last(), f) && all_predicates(s.last(), f)
    }
}

/// Running the De Morgan pass a second time changes nothing, provided the
/// first run pushed every negation through every AND and OR it met (one
/// pass need not do so: a negation above a node that only becomes an AND or
/// OR by the rewrite stays in place).
pub proof fn lemma_demorgans_pass_fixpoint(r: Rel)
    requires
        all_predicates(r, |p: ScalarExpr| negation_pushed(demorgans_spec(p))),
    ensures
        rewrite_tree(PredicateRewrite::DeMorgans, rewrite_tree(PredicateRewrite::DeMorgans, r))
            == rewrite_tree(PredicateRewrite::DeMorgans, r),
    decreases r,
{
    let rw = PredicateRewrite::DeMorgans;
    match r {
        Rel::Let { value, body, .. } => {
            lemma_demorgans_pass_fixpoint(*value);
            lemma_demorgans_pass_fixpoint(*body);
        },
        Rel::Project { input, .. } => lemma_demorgans_pass_fixpoint(*input),
        Rel::MapScalars { input, .. } => lemma_demorgans_pass_fixpoint(*input),
        Rel::Filter { input, predicates } => {
            lemma_demorgans_pass_fixpoint(*input);
            let once = rewrite_all(rw, predicates);
            assert forall|i: int| 0 <= i < once.len() implies #[trigger] demorgans_spec(once[i])
                == once[i] by {
                assert(negation_pushed(demorgans_spec(predicates[i])));
                lemma_demorgans_pushed_unchanged(demorgans_spec(predicates[i]));
            }
            assert(rewrite_all(rw, once) =~= once);
        },
        Rel::Join { inputs } => lemma_demorgans_pass_fixpoint_seq(inputs),
        Rel::Reduce { input, .. } => lemma_demorgans_pass_fixpoint(*input),
        Rel::TopK { input, .. } => lemma_demorgans_pass_fixpoint(*input),
        Rel::Negate { input } => lemma_demorgans_pass_fixpoint(*input),
        Rel::Threshold { input } => lemma_demorgans_pass_fixpoint(*input),
        Rel::Union { left, right } => {
            lemma_demorgans_pass_fixpoint(*left);
            lemma_demorgans_pass_fixpoint(*right);
        },
        _ => {},
    }
}

proof fn lemma_demorgans_pass_fixpoint_seq(s: Seq<Rel>)
    requires
        all_predicates_seq(s, |p: ScalarExpr| negation_pushed(demorgans_spec(p))),
    ensures
        rewrite_seq(PredicateRewrite::DeMorgans, rewrite_seq(PredicateRewrite::DeMorgans, s))
            == rewrite_seq(PredicateRewrite::DeMorgans, s),
    decreases s,
{
    let rw = PredicateRewrite::DeMorgans;
    if s.len() > 0 {
        lemma_demorgans_pass_fixpoint_seq(s.drop_last());
        lemma_demorgans_pass_fixpoint(s.last());
        let once = rewrite_seq(rw, s);
        assert(once.drop_last() =~= rewrite_seq(rw, s.drop_last()));
        assert(once.last() == rewrite_tree(rw, s.last()));
    }
}

fn rewrite_exec(rw: PredicateRewrite, p: &mut ScalarExpr)
    ensures
        *final(p) == rewrite_spec(rw, *old(p)),
{
    match rw {
        PredicateRewrite::DeMorgans => demorgans(p),
        PredicateRewrite::UndistributeAnd => undistribute_and(p),
    }
}

fn rewrite_predicates(rw: PredicateRewrite, preds: &Vec<ScalarExpr>) -> (r: Vec<ScalarExpr>)
    ensures
        r@ == rewrite_all(rw, preds@),
{
    let mut out: Vec<ScalarExpr> = Vec::new();
    let mut i: usize = 0;
    while i < preds.len()
        invariant
            i <= preds.len(),
            out@ == rewrite_all(rw, preds@.take(i as int)),
        decreases preds.len() - i,
    {
        let mut p = preds[i].clone();
        rewrite_exec(rw, &mut p);
        out.push(p);
        i = i + 1;
        assert(out@ =~= rewrite_all(rw, preds@.take(i as int)));
    }
    assert(preds@.take(i as int) =~= preds@);
    out
}

fn rewrite_node_exec(rw: PredicateRewrite, r: RelationExpr) -> (out: RelationExpr)
    ensures
        out@ == rewrite_node(rw, r@),
{
    match r {
        RelationExpr::Filter { input, predicates } => {
            let p = rewrite_predicates(rw, &predicates);
            RelationExpr::Filter { input, predicates: p }
        },
        other => other,
    }
}

fn rewrite_tree_exec(rw: PredicateRewrite, r: RelationExpr) -> (out: RelationExpr)
    ensures
        out@ == rewrite_tree(rw, r@),
    decreases r,
{
    let ghost r0 = r;
    match r {
        RelationExpr::Let { id, value, body } => {
            let v = rewrite_tree_exec(rw, *value);
            let b = rewrite_tree_exec(rw, *body);
            RelationExpr::Let { id, value: Box::new(v), body: Box::new(b) }
        },
        RelationExpr::Project { input, outputs } => {
            let i = rewrite_tree_exec(rw, *input);
            RelationExpr::Project { input: Box::new(i), outputs }
        },
        RelationExpr::MapScalars { input, scalars } => {
            let i = rewrite_tree_exec(rw, *input);
            RelationExpr::MapScalars { input: Box::new(i), scalars }
        },
        RelationExpr::Filter { input, predicates } => {
            let i = rewrite_tree_exec(rw, *input);
            let p = rewrite_predicates(rw, &predicates);
            RelationExpr::Filter { input: Box::new(i), predicates: p }
        },
        RelationExpr::Reduce { input, group_key, aggregates } => {
            let i = rewrite_tree_exec(rw, *input);
            RelationExpr::Reduce { input: Box::new(i), group_key, aggregates }
        },
        RelationExpr::TopK { input, group_key, order_key, limit } => {
            let i = rewrite_tree_exec(rw, *input);
            RelationExpr::TopK { input: Box::new(i), group_key, order_key, limit }
        },
        RelationExpr::Negate { input } => {
            let i = rewrite_tree_exec(rw, *input);
            RelationExpr::Negate { input: Box::new(i) }
        },
        RelationExpr::Threshold { input } => {
            let i = rewrite_tree_exec(rw, *input);
            RelationExpr::Threshold { input: Box::new(i) }
        },
        RelationExpr::Union { left, right } => {
            let l = rewrite_tree_exec(rw, *left);
            let rt = rewrite_tree_exec(rw, *right);
            RelationExpr::Union { left: Box::new(l), right: Box::new(rt) }
        },
        RelationExpr::Join { inputs } => {
            proof {
                assert(decreases_to!(r0 => r0->Join_inputs));
                assert(decreases_to!(r0->Join_inputs => r0->Join_inputs@));
            }
            let out = rewrite_inputs(rw, inputs);
            RelationExpr::Join { inputs: out }
        },
        other => other,
    }
}

fn rewrite_inputs(rw: PredicateRewrite, v: Vec<RelationExpr>) -> (out: Vec<RelationExpr>)
    ensures
        rels_view(out@) == rewrite_seq(rw, rels_view(v@)),
    decreases v@,
{
    let ghost v0 = v@;
    let mut v = v;
    if v.len() == 0 {
        proof {
            assert(rels_view(v@) =~= Seq::<Rel>::empty());
        }
        return v;
    }
    let last = v.pop().unwrap();
    proof {
        assert(v@ =~= v0.subrange(0, v0.len() - 1));
        assert(decreases_to!(v0 => v0.subrange(0, v0.len() - 1)));
        assert(decreases_to!(v0 => v0[v0.len() - 1]));
        assert(v0.drop_last() =~= v@);
        assert(rels_view(v0).drop_last() =~= rels_view(v@));
    }
    let mut rest = rewrite_inputs(rw, v);
    let ghost rest0 = rest@;
    let y = rewrite_tree_exec(rw, last);
    rest.push(y);
    proof {
        assert(rest@.drop_last() =~= rest0);
    }
    rest
}

/// Pushes negation through AND and OR in the predicates of every `Filter`.
#[derive(Debug)]
pub struct DeMorgans;

impl DeMorgans {
    pub fn transform(&self, relation: &mut RelationExpr, _metadata: &RelationType)
        ensures
            final(relation)@ == rewrite_tree(PredicateRewrite::DeMorgans, old(relation)@),
            arity(final(relation)@) == arity(old(relation)@),
            wf(old(relation)@) ==> wf(final(relation)@),
            eval_rel(final(relation)@) == eval_rel(old(relation)@),
            forall|env: Map<u64, Seq<Row>>|
                #[trigger] eval_in(final(relation)@, env) == eval_in(old(relation)@, env),
    {
        proof {
            lemma_rewrite_tree_wf(PredicateRewrite::DeMorgans, relation@);
            lemma_rewrite_tree_eval(PredicateRewrite::DeMorgans, relation@);
            assert forall|env: Map<u64, Seq<Row>>| #[trigger] eval_in(
                rewrite_tree(PredicateRewrite::DeMorgans, relation@),
                env,
            ) == eval_in(relation@, env) by {
                lemma_rewrite_tree_eval_in(PredicateRewrite::DeMorgans, relation@, env);
            }
        }
        let r = take_relation(relation);
        *relation = rewrite_tree_exec(PredicateRewrite::DeMorgans, r);
    }

    pub fn action(&self, relation: &mut RelationExpr, _metadata: &RelationType)
        ensures
            final(relation)@ == rewrite_node(PredicateRewrite::DeMorgans, old(relation)@),
    {
        let r = take_relation(relation);
        *relation = rewrite_node_exec(PredicateRewrite::DeMorgans, r);
    }
}

/// Factors conjuncts shared by both sides of an OR out of the predicates of
/// every `Filter`.
#[derive(Debug)]
pub struct UndistributeAnd;

impl UndistributeAnd {
    pub fn transform(&self, relation: &mut RelationExpr, _metadata: &RelationType)
        ensures
            final(relation)@ == rewrite_tree(PredicateRewrite::UndistributeAnd, old(relation)@),
            arity(final(relation)@) == arity(old(relation)@),
            wf(old(relation)@) ==> wf(final(relation)@),
            eval_rel(final(relation)@) == eval_rel(old(relation)@),
            forall|env: Map<u64, Seq<Row>>|
                #[trigger] eval_in(final(relation)@, env) == eval_in(old(relation)@, env),
    {
        proof {
            lemma_rewrite_tree_wf(PredicateRewrite::UndistributeAnd, relation@);
            lemma_rewrite_tree_eval(PredicateRewrite::UndistributeAnd, relation@);
            assert forall|env: Map<u64, Seq<Row>>| #[trigger] eval_in(
                rewrite_tree(PredicateRewrite::UndistributeAnd, relation@),
                env,
            ) == eval_in(relation@, env) by {
                lemma_rewrite_tree_eval_in(PredicateRewrite::UndistributeAnd, relation@, env);
            }
        }
        let r = take_relation(relation);
        *relation = rewrite_tree_exec(PredicateRewrite::UndistributeAnd, r);
    }

    pub fn action(&self, relation: &mut RelationExpr, _metadata: &RelationType)
        ensures
            final(relation)@ == rewrite_node(PredicateRewrite::UndistributeAnd, old(relation)@),
    {
        let r = take_relation(relation);
        *relation = rewrite_node_exec(PredicateRewrite::UndistributeAnd, r);
    }
}

} // verus!
