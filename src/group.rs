//! Grouping and aggregation of literal rows.
use vstd::prelude::*;
use crate::scalar::Datum;
use crate::relation::{
    AggregateExpr, AggregateFunc, Row, rows_view, project_row, group_keys, group_rows,
    column_values, count_non_null, sum_ints, sums_fit, aggregate, aggregate_group, reduce_groups,
    reduce_rows,
};
use crate::fold::{opt_rows_view, lemma_rows_view_push};

verus! {

fn rows_equal(a: &Vec<Datum>, b: &Vec<Datum>) -> (r: bool)
    ensures
        r == (a@ == b@),
{
    if a.len() != b.len() {
        return false;
    }
    let mut i: usize = 0;
    while i < a.len()
        invariant
            i <= a.len(),
            a.len() == b.len(),
            a@.take(i as int) == b@.take(i as int),
        decreases a.len() - i,
    {
        if a[i] != b[i] {
            assert(a@[i as int] != b@[i as int]);
            return false;
        }
        i = i + 1;
        assert(a@.take(i as int) =~= a@.take(i - 1).push(a@[i - 1]));
        assert(b@.take(i as int) =~= b@.take(i - 1).push(b@[i - 1]));
    }
    assert(a@.take(i as int) =~= a@);
    assert(b@.take(i as int) =~= b@);
    true
}

fn contains_row(rows: &Vec<Vec<Datum>>, k: &Vec<Datum>) -> (r: bool)
    ensures
        r == rows_view(rows@).contains(k@),
{
    let ghost rv = rows_view(rows@);
    let mut i: usize = 0;
    while i < rows.len()
        invariant
            i <= rows.len(),
            rv == rows_view(rows@),
            forall|j: int| 0 <= j < i ==> rv[j] != k@,
        decreases rows.len() - i,
    {
        if rows_equal(&rows[i], k) {
            assert(rv[i as int] == k@);
            return true;
        }
        i = i + 1;
    }
    false
}

fn project_row_exec(row: &Vec<Datum>, cols: &Vec<usize>) -> (r: Vec<Datum>)
    requires
        forall|j: int| 0 <= j < cols.len() ==> #[trigger] cols@[j] < row.len(),
    ensures
        r@ == project_row(row@, cols@),
{
    let mut out: Vec<Datum> = Vec::new();
    let mut j: usize = 0;
    while j < cols.len()
        invariant
            j <= cols.len(),
            forall|j: int| 0 <= j < cols.len() ==> #[trigger] cols@[j] < row.len(),
            out@ == project_row(row@, cols@.take(j as int)),
        decreases cols.len() - j,
    {
        out.push(row[cols[j]]);
        j = j + 1;
        assert(out@ =~= project_row(row@, cols@.take(j as int)));
    }
    assert(cols@.take(j as int) =~= cols@);
    out
}

/// The distinct keys of the rows, in order of first appearance.
fn distinct_keys(rows: &Vec<Vec<Datum>>, key: &Vec<usize>) -> (r: Vec<Vec<Datum>>)
    requires
        forall|i: int, j: int|
            0 <= i < rows.len() && 0 <= j < key.len() ==> #[trigger] key@[j]
                < #[trigger] rows@[i].len(),
    ensures
        rows_view(r@) == group_keys(rows_view(rows@), key@),
{
    let ghost rv = rows_view(rows@);
    let mut out: Vec<Vec<Datum>> = Vec::new();
    let mut i: usize = 0;
    assert(rows_view(out@) =~= Seq::<Row>::empty());
    while i < rows.len()
        invariant
            i <= rows.len(),
            rv == rows_view(rows@),
            forall|i: int, j: int|
                0 <= i < rows.len() && 0 <= j < key.len() ==> #[trigger] key@[j]
                    < #[trigger] rows@[i].len(),
            rows_view(out@) == group_keys(rv.take(i as int), key@),
        decreases rows.len() - i,
    {
        assert(rv.take(i + 1).drop_last() =~= rv.take(i as int));
        assert(rv.take(i + 1).last() == rows@[i as int]@);
        assert forall|j: int| 0 <= j < key.len() implies #[trigger] key@[j] < rows[i as int].len() by {
            assert(key@[j] < rows@[i as int].len());
        }
        let k = project_row_exec(&rows[i], key);
        if !contains_row(&out, &k) {
            proof {
                lemma_rows_view_push(out@, k);
            }
            out.push(k);
        }
        i = i + 1;
    }
    assert(rv.take(i as int) =~= rv);
    out
}

/// The rows whose key equals `k`, in order.
fn rows_of_group(rows: &Vec<Vec<Datum>>, key: &Vec<usize>, k: &Vec<Datum>) -> (r: Vec<Vec<Datum>>)
    requires
        forall|i: int, j: int|
            0 <= i < rows.len() && 0 <= j < key.len() ==> #[trigger] key@[j]
                < #[trigger] rows@[i].len(),
    ensures
        rows_view(r@) == group_rows(rows_view(rows@), key@, k@),
{
    let ghost rv = rows_view(rows@);
    let mut out: Vec<Vec<Datum>> = Vec::new();
    let mut i: usize = 0;
    assert(rows_view(out@) =~= Seq::<Row>::empty());
    while i < rows.len()
        invariant
            i <= rows.len(),
            rv == rows_view(rows@),
            forall|i: int, j: int|
                0 <= i < rows.len() && 0 <= j < key.len() ==> #[trigger] key@[j]
                    < #[trigger] rows@[i].len(),
            rows_view(out@) == group_rows(rv.take(i as int), key@, k@),
        decreases rows.len() - i,
    {
        assert(rv.take(i + 1).drop_last() =~= rv.take(i as int));
        assert(rv.take(i + 1).last() == rows@[i as int]@);
        assert forall|j: int| 0 <= j < key.len() implies #[trigger] key@[j] < rows[i as int].len() by {
            assert(key@[j] < rows@[i as int].len());
        }
        let rk = project_row_exec(&rows[i], key);
        if rows_equal(&rk, k) {
            let c = rows[i].clone();
            proof {
                lemma_rows_view_push(out@, c);
            }
            out.push(c);
        }
        i = i + 1;
    }
    assert(rv.take(i as int) =~= rv);
    out
}

proof fn lemma_column_values_none(rows: Seq<Row>, e: crate::scalar::ScalarExpr, i: int)
    requires
        0 <= i <= rows.len(),
        column_values(rows.take(i), e) is None,
    ensures
        column_values(rows, e) is None,
    decreases rows.len() - i,
{
    if i < rows.len() {
        assert(rows.take(i + 1).drop_last() =~= rows.take(i));
        lemma_column_values_none(rows, e, i + 1);
    } else {
        assert(rows.take(i) =~= rows);
    }
}

fn column_values_exec(rows: &Vec<Vec<Datum>>, e: &crate::scalar::ScalarExpr) -> (r: Option<
    Vec<Datum>,
>)
    ensures
        match r {
            Some(v) => column_values(rows_view(rows@), *e) == Some(v@),
            None => column_values(rows_view(rows@), *e) is None,
        },
{
    let ghost rv = rows_view(rows@);
    let mut out: Vec<Datum> = Vec::new();
    let mut i: usize = 0;
    while i < rows.len()
        invariant
            i <= rows.len(),
            rv == rows_view(rows@),
            column_values(rv.take(i as int), *e) == Some(out@),
        decreases rows.len() - i,
    {
        assert(rv.take(i + 1).drop_last() =~= rv.take(i as int));
        assert(rv.take(i + 1).last() == rows@[i as int]@);
        match e.eval(rows[i].as_slice()) {
            Ok(d) => out.push(d),
            Err(_) => {
                proof {
                    lemma_column_values_none(rv, *e, i + 1);
                }
                return None;
            },
        }
        i = i + 1;
    }
    assert(rv.take(i as int) =~= rv);
    Some(out)
}

proof fn lemma_count_prefix(vals: Seq<Datum>, i: int)
    requires
        0 <= i <= vals.len(),
    ensures
        count_non_null(vals.take(i)) <= count_non_null(vals),
    decreases vals.len() - i,
{
    if i < vals.len() {
        assert(vals.take(i + 1).drop_last() =~= vals.take(i));
        lemma_count_prefix(vals, i + 1);
    } else {
        assert(vals.take(i) =~= vals);
    }
}

proof fn lemma_sums_fit_prefix(vals: Seq<Datum>, i: int)
    requires
        0 <= i <= vals.len(),
        sums_fit(vals),
    ensures
        sums_fit(vals.take(i)),
    decreases vals.len() - i,
{
    if i < vals.len() {
        assert(vals.drop_last().len() == vals.len() - 1);
        if i < vals.len() - 1 {
            lemma_sums_fit_prefix(vals.drop_last(), i);
            assert(vals.drop_last().take(i) =~= vals.take(i));
        } else {
            assert(vals.drop_last() =~= vals.take(i));
        }
    } else {
        assert(vals.take(i) =~= vals);
    }
}

fn aggregate_exec(f: AggregateFunc, vals: &Vec<Datum>) -> (r: Option<Datum>)
    ensures
        r == aggregate(f, vals@),
{
    match f {
        AggregateFunc::Count => {
            let mut n: i64 = 0;
            let mut i: usize = 0;
            while i < vals.len()
                invariant
                    i <= vals.len(),
                    f == AggregateFunc::Count,
                    n == count_non_null(vals@.take(i as int)),
                decreases vals.len() - i,
            {
                assert(vals@.take(i + 1).drop_last() =~= vals@.take(i as int));
                assert(vals@.take(i + 1).last() == vals@[i as int]);
                if vals[i] != Datum::Null {
                    if n == i64::MAX {
                        proof {
                            lemma_count_prefix(vals@, i + 1);
                            assert(count_non_null(vals@.take(i + 1)) == n + 1);
                            assert(count_non_null(vals@) > i64::MAX);
                        }
                        return None;
                    }
                    n = n + 1;
                }
                i = i + 1;
            }
            assert(vals@.take(i as int) =~= vals@);
            Some(Datum::Int64(n))
        },
        AggregateFunc::SumInt64 => {
            let mut acc: Option<i64> = None;
            let mut i: usize = 0;
            assert(vals@.take(0) =~= Seq::<Datum>::empty());
            while i < vals.len()
                invariant
                    i <= vals.len(),
                    f == AggregateFunc::SumInt64,
                    sums_fit(vals@.take(i as int)),
                    match acc {
                        Some(s) => sum_ints(vals@.take(i as int)) == Some(s as int),
                        None => sum_ints(vals@.take(i as int)) is None,
                    },
                decreases vals.len() - i,
            {
                assert(vals@.take(i + 1).drop_last() =~= vals@.take(i as int));
                assert(vals@.take(i + 1).last() == vals@[i as int]);
                if let Datum::Int64(x) = vals[i] {
                    match acc {
                        Some(s) => match s.checked_add(x) {
                            Some(t) => acc = Some(t),
                            None => {
                                proof {
                                    let t = vals@.take(i + 1);
                                    assert(sum_ints(t) == Some(s + x));
                                    assert(!sums_fit(t));
                                    if sums_fit(vals@) {
                                        lemma_sums_fit_prefix(vals@, i + 1);
                                    }
                                }
                                return None;
                            },
                        },
                        None => acc = Some(x),
                    }
                }
                i = i + 1;
            }
            assert(vals@.take(i as int) =~= vals@);
            match acc {
                Some(s) => Some(Datum::Int64(s)),
                None => Some(Datum::Null),
            }
        },
    }
}

proof fn lemma_aggregate_group_none(group: Seq<Row>, aggs: Seq<AggregateExpr>, i: int)
    requires
        0 <= i <= aggs.len(),
        aggregate_group(group, aggs.take(i)) is None,
    ensures
        aggregate_group(group, aggs) is None,
    decreases aggs.len() - i,
{
    if i < aggs.len() {
        assert(aggs.take(i + 1).drop_last() =~= aggs.take(i));
        lemma_aggregate_group_none(group, aggs, i + 1);
    } else {
        assert(aggs.take(i) =~= aggs);
    }
}

fn aggregate_group_exec(group: &Vec<Vec<Datum>>, aggs: &Vec<AggregateExpr>) -> (r: Option<
    Vec<Datum>,
>)
    ensures
        match r {
            Some(v) => aggregate_group(rows_view(group@), aggs@) == Some(v@),
            None => aggregate_group(rows_view(group@), aggs@) is None,
        },
{
    let ghost gv = rows_view(group@);
    let mut out: Vec<Datum> = Vec::new();
    let mut j: usize = 0;
    assert(aggs@.take(0) =~= Seq::<AggregateExpr>::empty());
    while j < aggs.len()
        invariant
            j <= aggs.len(),
            gv == rows_view(group@),
            aggregate_group(gv, aggs@.take(j as int)) == Some(out@),
        decreases aggs.len() - j,
    {
        assert(aggs@.take(j + 1).drop_last() =~= aggs@.take(j as int));
        assert(aggs@.take(j + 1).last() == aggs@[j as int]);
        let vals = match column_values_exec(group, &aggs[j].expr) {
            Some(v) => v,
            None => {
                proof {
                    lemma_aggregate_group_none(gv, aggs@, j + 1);
                }
                return None;
            },
        };
        match aggregate_exec(aggs[j].func, &vals) {
            Some(d) => out.push(d),
            None => {
                proof {
                    lemma_aggregate_group_none(gv, aggs@, j + 1);
                }
                return None;
            },
        }
        j = j + 1;
    }
    assert(aggs@.take(j as int) =~= aggs@);
    Some(out)
}

proof fn lemma_reduce_groups_none(rows: Seq<Row>, key: Seq<usize>, keys: Seq<Row>, aggs: Seq<
    AggregateExpr,
>, i: int)
    requires
        0 <= i <= keys.len(),
        reduce_groups(rows, key, keys.take(i), aggs) is None,
    ensures
        reduce_groups(rows, key, keys, aggs) is None,
    decreases keys.len() - i,
{
    if i < keys.len() {
        assert(keys.take(i + 1).drop_last() =~= keys.take(i));
        lemma_reduce_groups_none(rows, key, keys, aggs, i + 1);
    } else {
        assert(keys.take(i) =~= keys);
    }
}

/// Groups literal rows by `key`, in order of each key's first appearance,
/// and appends each aggregate's value to the group's key. `None` when an
/// evaluation or an aggregate fails.
pub fn reduce_constant(rows: &Vec<Vec<Datum>>, key: &Vec<usize>, aggs: &Vec<AggregateExpr>) -> (r:
    Option<Vec<Vec<Datum>>>)
    requires
        forall|i: int, j: int|
            0 <= i < rows.len() && 0 <= j < key.len() ==> #[trigger] key@[j]
                < #[trigger] rows@[i].len(),
    ensures
        opt_rows_view(r) == reduce_rows(rows_view(rows@), key@, aggs@),
{
    let ghost rv = rows_view(rows@);
    let keys = distinct_keys(rows, key);
    let ghost kv = rows_view(keys@);
    let mut out: Vec<Vec<Datum>> = Vec::new();
    let mut g: usize = 0;
    assert(kv.take(0) =~= Seq::<Row>::empty());
    assert(rows_view(out@) =~= Seq::<Row>::empty());
    while g < keys.len()
        invariant
            g <= keys.len(),
            rv == rows_view(rows@),
            kv == rows_view(keys@),
            kv == group_keys(rv, key@),
            forall|i: int, j: int|
                0 <= i < rows.len() && 0 <= j < key.len() ==> #[trigger] key@[j]
                    < #[trigger] rows@[i].len(),
            reduce_groups(rv, key@, kv.take(g as int), aggs@) == Some(rows_view(out@)),
        decreases keys.len() - g,
    {
        assert(kv.take(g + 1).drop_last() =~= kv.take(g as int));
        assert(kv.take(g + 1).last() == keys@[g as int]@);
        let grp = rows_of_group(rows, key, &keys[g]);
        match aggregate_group_exec(&grp, aggs) {
            Some(vals) => {
                let mut row = keys[g].clone();
                let mut j: usize = 0;
                let ghost k0 = keys@[g as int]@;
                assert(row@ == k0);
                while j < vals.len()
                    invariant
                        j <= vals.len(),
                        row@ == k0 + vals@.take(j as int),
                    decreases vals.len() - j,
                {
                    row.push(vals[j]);
                    j = j + 1;
                    assert(row@ =~= k0 + vals@.take(j as int));
                }
                assert(vals@.take(j as int) =~= vals@);
                proof {
                    lemma_rows_view_push(out@, row);
                }
                out.push(row);
            },
            None => {
                proof {
                    lemma_reduce_groups_none(rv, key@, kv, aggs@, g + 1);
                }
                return None;
            },
        }
        g = g + 1;
    }
    assert(kv.take(g as int) =~= kv);
    Some(out)
}

} // verus!
