use seal_node::aggregate::{aggregate, aggregate_query, parse_aggregate_function, AggregateFunction};

#[test]
fn aggregate_names() {
    assert_eq!(parse_aggregate_function("sum").unwrap(), AggregateFunction::Sum);
    assert_eq!(parse_aggregate_function("count").unwrap(), AggregateFunction::Count);
    assert_eq!(parse_aggregate_function("avg").unwrap(), AggregateFunction::Avg);
    let err = parse_aggregate_function("median").unwrap_err();
    assert_eq!(err, (-32602, "unsupported function: median".to_string()));
    assert!(parse_aggregate_function("SUM").is_err());
}

#[test]
fn aggregate_query_reads_one_column() {
    assert_eq!(aggregate_query("salary", "payroll"), "SELECT salary FROM payroll");
}

#[test]
fn sum_count_avg() {
    let v = [10i64, 20, 30, -5];
    assert_eq!(aggregate(AggregateFunction::Sum, &v), (55, 4));
    assert_eq!(aggregate(AggregateFunction::Count, &v), (4, 4));
    assert_eq!(aggregate(AggregateFunction::Avg, &v), (13, 4));
}

#[test]
fn average_rounds_toward_zero_and_is_zero_when_empty() {
    assert_eq!(aggregate(AggregateFunction::Avg, &[-7, 0]), (-3, 2));
    assert_eq!(aggregate(AggregateFunction::Avg, &[7, 0]), (3, 2));
    assert_eq!(aggregate(AggregateFunction::Avg, &[]), (0, 0));
    assert_eq!(aggregate(AggregateFunction::Sum, &[]), (0, 0));
    assert_eq!(aggregate(AggregateFunction::Avg, &[i64::MIN]), (i64::MIN, 1));
}
