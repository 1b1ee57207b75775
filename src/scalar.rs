//! Scalar values and scalar expressions, with their row-level semantics.
use vstd::prelude::*;

verus! {

/// A scalar value. `True`, `False` and `Null` form the domain of
/// three-valued logic.
#[derive(Clone, Copy, Debug, PartialEq, Eq, Structural)]
pub enum Datum {
    Null,
    True,
    False,
    Int64(i64),
}

/// Why evaluating a scalar expression on a row did not produce a value.
#[derive(Clone, Copy, Debug, PartialEq, Eq, Structural)]
pub enum EvalError {
    /// An integer result does not fit in 64 bits.
    Int64OutOfRange,
    /// A column reference points past the end of the row.
    ColumnOutOfRange,
}

#[derive(Clone, Copy, Debug, PartialEq, Eq, Structural)]
pub enum UnaryFunc {
    Not,
    IsNull,
    NegInt64,
}

#[derive(Clone, Copy, Debug, PartialEq, Eq, Structural)]
pub enum BinaryFunc {
    And,
    Or,
    Eq,
    Lt,
    AddInt64,
}

/// A row-level computation or predicate.
#[derive(Debug)]
#[allow(inconsistent_fields)]
pub enum ScalarExpr {
    /// The value of a column of the current row.
    Column(usize),
    Literal(Datum),
    CallUnary { func: UnaryFunc, expr: Box<ScalarExpr> },
    CallBinary { func: BinaryFunc, expr1: Box<ScalarExpr>, expr2: Box<ScalarExpr> },
}

/// Three-valued negation: anything that is not a boolean counts as `Null`.
pub open spec fn not3(a: Datum) -> Datum {
    match a {
        Datum::True => Datum::False,
        Datum::False => Datum::True,
        _ => Datum::Null,
    }
}

/// Three-valued conjunction: `False` wins, then `Null`.
pub open spec fn and3(a: Datum, b: Datum) -> Datum {
    if a == Datum::False || b == Datum::False {
        Datum::False
    } else if a == Datum::True && b == Datum::True {
        Datum::True
    } else {
        Datum::Null
    }
}

/// Three-valued disjunction: `True` wins, then `Null`.
pub open spec fn or3(a: Datum, b: Datum) -> Datum {
    if a == Datum::True || b == Datum::True {
        Datum::True
    } else if a == Datum::False && b == Datum::False {
        Datum::False
    } else {
        Datum::Null
    }
}

pub open spec fn bool_datum(b: bool) -> Datum {
    if b {
        Datum::True
    } else {
        Datum::False
    }
}

pub open spec fn apply_unary(f: UnaryFunc, a: Datum) -> Result<Datum, EvalError> {
    match f {
        UnaryFunc::Not => Ok(not3(a)),
        UnaryFunc::IsNull => Ok(bool_datum(a == Datum::Null)),
        UnaryFunc::NegInt64 => match a {
            Datum::Int64(x) => if x == i64::MIN {
                Err(EvalError::Int64OutOfRange)
            } else {
                Ok(Datum::Int64((-x) as i64))
            },
            _ => Ok(Datum::Null),
        },
    }
}

pub open spec fn apply_binary(f: BinaryFunc, a: Datum, b: Datum) -> Result<Datum, EvalError> {
    match f {
        BinaryFunc::And => Ok(and3(a, b)),
        BinaryFunc::Or => Ok(or3(a, b)),
        BinaryFunc::Eq => if a == Datum::Null || b == Datum::Null {
            Ok(Datum::Null)
        } else {
            Ok(bool_datum(a == b))
        },
        BinaryFunc::Lt => match (a, b) {
            (Datum::Int64(x), Datum::Int64(y)) => Ok(bool_datum(x < y)),
            _ => Ok(Datum::Null),
        },
        BinaryFunc::AddInt64 => match (a, b) {
            (Datum::Int64(x), Datum::Int64(y)) => if i64::MIN <= x + y <= i64::MAX {
                Ok(Datum::Int64((x + y) as i64))
            } else {
                Err(EvalError::Int64OutOfRange)
            },
            _ => Ok(Datum::Null),
        },
    }
}

/// The value of `e` on `row`. Errors propagate from the arguments,
/// the first argument's error first.
pub open spec fn denote(e: ScalarExpr, row: Seq<Datum>) -> Result<Datum, EvalError>
    decreases e,
{
    match e {
        ScalarExpr::Column(i) => if i < row.len() {
            Ok(row[i as int])
        } else {
            Err(EvalError::ColumnOutOfRange)
        },
        ScalarExpr::Literal(d) => Ok(d),
        ScalarExpr::CallUnary { func, expr } => match denote(*expr, row) {
            Ok(a) => apply_unary(func, a),
            Err(err) => Err(err),
        },
        ScalarExpr::CallBinary { func, expr1, expr2 } => match denote(*expr1, row) {
            Ok(a) => match denote(*expr2, row) {
                Ok(b) => apply_binary(func, a, b),
                Err(err) => Err(err),
            },
            Err(err) => Err(err),
        },
    }
}

/// Two expressions that agree on every row.
pub open spec fn equivalent(a: ScalarExpr, b: ScalarExpr) -> bool {
    forall|row: Seq<Datum>| denote(a, row) == denote(b, row)
}

pub open spec fn is_literal(e: ScalarExpr) -> bool {
    e is Literal
}

/// Constant folding of one call whose arguments are already folded: a call
/// of literals that evaluates without error becomes that literal.
pub open spec fn reduce_node(e: ScalarExpr) -> ScalarExpr {
    match e {
        ScalarExpr::CallUnary { func, expr } => if is_literal(*expr) {
            match apply_unary(func, expr->Literal_0) {
                Ok(d) => ScalarExpr::Literal(d),
                Err(_) => e,
            }
        } else {
            e
        },
        ScalarExpr::CallBinary { func, expr1, expr2 } => if is_literal(*expr1) && is_literal(
            *expr2,
        ) {
            match apply_binary(func, expr1->Literal_0, expr2->Literal_0) {
                Ok(d) => ScalarExpr::Literal(d),
                Err(_) => e,
            }
        } else {
            e
        },
        _ => e,
    }
}

/// Constant folding of a whole scalar tree, innermost calls first.
pub open spec fn reduced(e: ScalarExpr) -> ScalarExpr
    decreases e,
{
    match e {
        ScalarExpr::CallUnary { func, expr } => reduce_node(
            ScalarExpr::CallUnary { func, expr: Box::new(reduced(*expr)) },
        ),
        ScalarExpr::CallBinary { func, expr1, expr2 } => reduce_node(
            ScalarExpr::CallBinary {
                func,
                expr1: Box::new(reduced(*expr1)),
                expr2: Box::new(reduced(*expr2)),
            },
        ),
        _ => e,
    }
}

pub proof fn lemma_reduce_node_equivalent(e: ScalarExpr)
    ensures
        equivalent(reduce_node(e), e),
{
    assert forall|row: Seq<Datum>| denote(reduce_node(e), row) == denote(e, row) by {
        match e {
            ScalarExpr::CallUnary { func, expr } => {
                if is_literal(*expr) {
                    assert(denote(*expr, row) == Ok::<Datum, EvalError>(expr->Literal_0));
                }
            },
            ScalarExpr::CallBinary { func, expr1, expr2 } => {
                if is_literal(*expr1) && is_literal(*expr2) {
                    assert(denote(*expr1, row) == Ok::<Datum, EvalError>(expr1->Literal_0));
                    assert(denote(*expr2, row) == Ok::<Datum, EvalError>(expr2->Literal_0));
                }
            },
            _ => {},
        }
    }
}

/// Constant folding keeps the value of an expression on every row.
pub proof fn lemma_reduced_equivalent(e: ScalarExpr)
    ensures
        equivalent(reduced(e), e),
    decreases e,
{
    match e {
        ScalarExpr::CallUnary { func, expr } => {
            lemma_reduced_equivalent(*expr);
            let mid = ScalarExpr::CallUnary { func, expr: Box::new(reduced(*expr)) };
            lemma_reduce_node_equivalent(mid);
            assert forall|row: Seq<Datum>| denote(reduced(e), row) == denote(e, row) by {
                assert(denote(reduced(*expr), row) == denote(*expr, row));
                assert(denote(reduce_node(mid), row) == denote(mid, row));
            }
        },
        ScalarExpr::CallBinary { func, expr1, expr2 } => {
            lemma_reduced_equivalent(*expr1);
            lemma_reduced_equivalent(*expr2);
            let mid = ScalarExpr::CallBinary {
                func,
                expr1: Box::new(reduced(*expr1)),
                expr2: Box::new(reduced(*expr2)),
            };
            lemma_reduce_node_equivalent(mid);
            assert forall|row: Seq<Datum>| denote(reduced(e), row) == denote(e, row) by {
                assert(denote(reduced(*expr1), row) == denote(*expr1, row));
                assert(denote(reduced(*expr2), row) == denote(*expr2, row));
                assert(denote(reduce_node(mid), row) == denote(mid, row));
            }
        },
        _ => {},
    }
}

/// Folding an already folded expression changes nothing.
pub proof fn lemma_reduced_idempotent(e: ScalarExpr)
    ensures
        reduced(reduced(e)) == reduced(e),
    decreases e,
{
    match e {
        ScalarExpr::CallUnary { func, expr } => {
            lemma_reduced_idempotent(*expr);
        },
        ScalarExpr::CallBinary { func, expr1, expr2 } => {
            lemma_reduced_idempotent(*expr1);
            lemma_reduced_idempotent(*expr2);
        },
        _ => {},
    }
}

pub fn not3_exec(a: Datum) -> (r: Datum)
    ensures
        r == not3(a),
{
    match a {
        Datum::True => Datum::False,
        Datum::False => Datum::True,
        _ => Datum::Null,
    }
}

fn and3_exec(a: Datum, b: Datum) -> (r: Datum)
    ensures
        r == and3(a, b),
{
    if a == Datum::False || b == Datum::False {
        Datum::False
    } else if a == Datum::True && b == Datum::True {
        Datum::True
    } else {
        Datum::Null
    }
}

fn or3_exec(a: Datum, b: Datum) -> (r: Datum)
    ensures
        r == or3(a, b),
{
    if a == Datum::True || b == Datum::True {
        Datum::True
    } else if a == Datum::False && b == Datum::False {
        Datum::False
    } else {
        Datum::Null
    }
}

fn bool_datum_exec(b: bool) -> (r: Datum)
    ensures
        r == bool_datum(b),
{
    if b {
        Datum::True
    } else {
        Datum::False
    }
}

impl UnaryFunc {
    pub fn apply(&self, a: Datum) -> (r: Result<Datum, EvalError>)
        ensures
            r == apply_unary(*self, a),
    {
        match self {
            UnaryFunc::Not => Ok(not3_exec(a)),
            UnaryFunc::IsNull => Ok(bool_datum_exec(a == Datum::Null)),
            UnaryFunc::NegInt64 => match a {
                Datum::Int64(x) => if x == i64::MIN {
                    Err(EvalError::Int64OutOfRange)
                } else {
                    Ok(Datum::Int64(-x))
                },
                _ => Ok(Datum::Null),
            },
        }
    }
}

impl BinaryFunc {
    pub fn apply(&self, a: Datum, b: Datum) -> (r: Result<Datum, EvalError>)
        ensures
            r == apply_binary(*self, a, b),
    {
        match self {
            BinaryFunc::And => Ok(and3_exec(a, b)),
            BinaryFunc::Or => Ok(or3_exec(a, b)),
            BinaryFunc::Eq => if a == Datum::Null || b == Datum::Null {
                Ok(Datum::Null)
            } else {
                Ok(bool_datum_exec(a == b))
            },
            BinaryFunc::Lt => match (a, b) {
                (Datum::Int64(x), Datum::Int64(y)) => Ok(bool_datum_exec(x < y)),
                _ => Ok(Datum::Null),
            },
            BinaryFunc::AddInt64 => match (a, b) {
                (Datum::Int64(x), Datum::Int64(y)) => match x.checked_add(y) {
                    Some(z) => Ok(Datum::Int64(z)),
                    None => Err(EvalError::Int64OutOfRange),
                },
                _ => Ok(Datum::Null),
            },
        }
    }
}

impl Clone for ScalarExpr {
    fn clone(&self) -> (r: Self)
        ensures
            r == *self,
        decreases *self,
    {
        match self {
            ScalarExpr::Column(i) => ScalarExpr::Column(*i),
            ScalarExpr::Literal(d) => ScalarExpr::Literal(*d),
            ScalarExpr::CallUnary { func, expr } => ScalarExpr::CallUnary {
                func: *func,
                expr: Box::new((**expr).clone()),
            },
            ScalarExpr::CallBinary { func, expr1, expr2 } => ScalarExpr::CallBinary {
                func: *func,
                expr1: Box::new((**expr1).clone()),
                expr2: Box::new((**expr2).clone()),
            },
        }
    }
}

impl ScalarExpr {
    /// Evaluates the expression on a row.
    pub fn eval(&self, row: &[Datum]) -> (r: Result<Datum, EvalError>)
        ensures
            r == denote(*self, row@),
        decreases *self,
    {
        match self {
            ScalarExpr::Column(i) => if *i < row.len() {
                Ok(row[*i])
            } else {
                Err(EvalError::ColumnOutOfRange)
            },
            ScalarExpr::Literal(d) => Ok(*d),
            ScalarExpr::CallUnary { func, expr } => match expr.eval(row) {
                Ok(a) => func.apply(a),
                Err(err) => Err(err),
            },
            ScalarExpr::CallBinary { func, expr1, expr2 } => match expr1.eval(row) {
                Ok(a) => match expr2.eval(row) {
                    Ok(b) => func.apply(a, b),
                    Err(err) => Err(err),
                },
                Err(err) => Err(err),
            },
        }
    }

    pub fn is_literal_true(&self) -> (r: bool)
        ensures
            r == (*self == ScalarExpr::Literal(Datum::True)),
    {
        match self {
            ScalarExpr::Literal(Datum::True) => true,
            _ => false,
        }
    }

    /// Whether the expression is the literal `False` or `Null`, so that no
    /// row can satisfy it.
    pub fn is_literal_false_or_null(&self) -> (r: bool)
        ensures
            r == (*self == ScalarExpr::Literal(Datum::False) || *self == ScalarExpr::Literal(
                Datum::Null,
            )),
    {
        match self {
            ScalarExpr::Literal(Datum::False) => true,
            ScalarExpr::Literal(Datum::Null) => true,
            _ => false,
        }
    }

    /// Constant-folds the expression: every call whose arguments are all
    /// literals is replaced by its value, unless evaluating it fails, in which
    /// case it is left for execution to report.
    pub fn reduce(&mut self)
        ensures
            *final(self) == reduced(*old(self)),
            equivalent(*final(self), *old(self)),
    {
        proof {
            lemma_reduced_equivalent(*self);
        }
        let e = take_scalar(self);
        *self = reduced_exec(e);
    }
}

/// Moves the expression out of its slot, leaving a literal `Null` behind.
pub fn take_scalar(slot: &mut ScalarExpr) -> (r: ScalarExpr)
    ensures
        r == *old(slot),
        *final(slot) == ScalarExpr::Literal(Datum::Null),
{
    let mut r = ScalarExpr::Literal(Datum::Null);
    core::mem::swap(slot, &mut r);
    r
}

fn reduce_node_exec(e: ScalarExpr) -> (r: ScalarExpr)
    ensures
        r == reduce_node(e),
{
    match e {
        ScalarExpr::CallUnary { func, expr } => {
            if let ScalarExpr::Literal(a) = *expr {
                match func.apply(a) {
                    Ok(d) => ScalarExpr::Literal(d),
                    Err(_) => ScalarExpr::CallUnary { func, expr },
                }
            } else {
                ScalarExpr::CallUnary { func, expr }
            }
        },
        ScalarExpr::CallBinary { func, expr1, expr2 } => {
            if let (ScalarExpr::Literal(a), ScalarExpr::Literal(b)) = (&*expr1, &*expr2) {
                match func.apply(*a, *b) {
                    Ok(d) => ScalarExpr::Literal(d),
                    Err(_) => ScalarExpr::CallBinary { func, expr1, expr2 },
                }
            } else {
                ScalarExpr::CallBinary { func, expr1, expr2 }
            }
        },
        _ => e,
    }
}

fn reduced_exec(e: ScalarExpr) -> (r: ScalarExpr)
    ensures
        r == reduced(e),
    decreases e,
{
    match e {
        ScalarExpr::CallUnary { func, expr } => {
            let inner = reduced_exec(*expr);
            reduce_node_exec(ScalarExpr::CallUnary { func, expr: Box::new(inner) })
        },
        ScalarExpr::CallBinary { func, expr1, expr2 } => {
            let a = reduced_exec(*expr1);
            let b = reduced_exec(*expr2);
            reduce_node_exec(ScalarExpr::CallBinary { func, expr1: Box::new(a), expr2: Box::new(b) })
        },
        _ => e,
    }
}

} // verus!
