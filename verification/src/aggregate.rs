//! Aggregates over one integer column of a private table: the query that
//! reads the column, and the sum, count or average of what it returned.

use vstd::prelude::*;
use crate::text::string_of;

verus! {

/// An aggregate a caller may ask for.
#[derive(Clone, Copy, Debug, PartialEq, Eq, Structural)]
pub enum AggregateFunction {
    Sum,
    Count,
    Avg,
}

/// The aggregate named `name`, if it is one of `sum`, `count`, `avg`.
pub open spec fn aggregate_named(name: Seq<char>) -> Option<AggregateFunction> {
    if name == "sum"@ {
        Some(AggregateFunction::Sum)
    } else if name == "count"@ {
        Some(AggregateFunction::Count)
    } else if name == "avg"@ {
        Some(AggregateFunction::Avg)
    } else {
        None
    }
}

/// Reads the aggregate's name; any other name is refused as an invalid
/// parameter.
pub fn parse_aggregate_function(name: &str) -> (r: Result<AggregateFunction, (i32, String)>)
    ensures
        match aggregate_named(name@) {
            Some(f) => r == Ok::<AggregateFunction, (i32, String)>(f),
            None => r matches Err((code, msg)) && code == -32602 && msg@ == "unsupported function: "@ + name@,
        },
{
    let s = string_of(name);
    let sum = string_of("sum");
    let count = string_of("count");
    let avg = string_of("avg");
    if s == sum {
        Ok(AggregateFunction::Sum)
    } else if s == count {
        Ok(AggregateFunction::Count)
    } else if s == avg {
        Ok(AggregateFunction::Avg)
    } else {
        let mut msg = string_of("unsupported function: ");
        msg.append(name);
        Err((-32602, msg))
    }
}

/// The query that reads `column` of `table`.
pub fn aggregate_query(column: &str, table: &str) -> (q: String)
    ensures
        q@ == "SELECT "@ + column@ + " FROM "@ + table@,
{
    let mut q = string_of("SELECT ");
    q.append(column);
    q.append(" FROM ");
    q.append(table);
    q
}

/// Sum of a sequence of values.
pub open spec fn sum_of(s: Seq<i64>) -> int
    decreases s.len(),
{
    if s.len() == 0 {
        0
    } else {
        sum_of(s.drop_last()) + s.last()
    }
}

/// Every running sum of `s` fits in an `i64`.
pub open spec fn sums_fit(s: Seq<i64>) -> bool {
    forall|k: int| 0 <= k <= s.len() ==> i64::MIN <= #[trigger] sum_of(s.take(k)) <= i64::MAX
}

/// Quotient of `a` by a positive `b`, rounded toward zero.
pub open spec fn div_toward_zero(a: int, b: int) -> int {
    if a >= 0 {
        a / b
    } else {
        -((-a) / b)
    }
}

/// The aggregate of `values` and how many values it was taken over:
/// the sum, the count, or the average rounded toward zero (zero over no
/// values).
pub open spec fn aggregate_value(f: AggregateFunction, values: Seq<i64>) -> int {
    match f {
        AggregateFunction::Sum => sum_of(values),
        AggregateFunction::Count => values.len() as int,
        AggregateFunction::Avg => if values.len() == 0 {
            0
        } else {
            div_toward_zero(sum_of(values), values.len() as int)
        },
    }
}

/// Computes an aggregate over the values of a column. Sums are taken in
/// order, so every running sum must fit in an `i64`.
pub fn aggregate(f: AggregateFunction, values: &[i64]) -> (r: (i64, usize))
    requires
        f != AggregateFunction::Count ==> sums_fit(values@),
        values@.len() <= i64::MAX,
    ensures
        r.0 == aggregate_value(f, values@),
        r.1 == values@.len(),
        f == AggregateFunction::Avg && values@.len() == 0 ==> r == (0i64, 0usize),
{
    let n = values.len();
    match f {
        AggregateFunction::Count => (n as i64, n),
        _ => {
            let mut total: i64 = 0;
            let mut i: usize = 0;
            assert(values@.take(0) =~= Seq::<i64>::empty());
            while i < n
                invariant
                    n == values@.len(),
                    i <= n,
                    sums_fit(values@),
                    total == sum_of(values@.take(i as int)),
                decreases n - i,
            {
                assert(values@.take(i + 1).drop_last() =~= values@.take(i as int));
                assert(i64::MIN <= sum_of(values@.take(i + 1)) <= i64::MAX);
                total = total + values[i];
                i = i + 1;
            }
            assert(values@.take(n as int) =~= values@);
            if f == AggregateFunction::Sum {
                (total, n)
            } else if n == 0 {
                (0, 0)
            } else {
                let count = n as u128;
                let magnitude: u128 = if total >= 0 {
                    total as u128
                } else {
                    (-(total as i128)) as u128
                };
                let q = magnitude / count;
                assert(q <= magnitude);
                if total >= 0 {
                    (q as i64, n)
                } else {
                    (-(q as i128) as i64, n)
                }
            }
        },
    }
}

} // verus!
