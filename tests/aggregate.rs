use bucket_sizes::{
    aggregate, bucket_size, AggregateError, BucketStats, Datapoint, DatapointError, Metric,
    ReportRow, StatisticsResult, Timestamp,
};

fn at(secs: i64, avg: f64) -> Datapoint {
    Datapoint { timestamp: Some(Timestamp { secs, nanos: 0 }), average: Some(avg.to_bits()) }
}

fn latest(avg: f64) -> StatisticsResult {
    vec![at(100, avg / 2.0), at(200, avg)]
}

fn stats(name: &str, sizes: Vec<f64>, objects: f64) -> BucketStats {
    BucketStats {
        name: name.to_string(),
        size_results: sizes.into_iter().map(latest).collect(),
        objects_result: latest(objects),
    }
}

#[test]
fn bucket_row_sums_its_classes() {
    let report = aggregate(&vec![stats("b1", vec![1_000_000.0, 2_000_000.0], 42.0)]).unwrap();
    assert_eq!(
        report.rows,
        vec![ReportRow { name: "b1".to_string(), size: 3_000_000, objects: 42 }]
    );
    assert_eq!(report.total_size, 3_000_000);
}

#[test]
fn grand_total_sums_the_buckets() {
    let report = aggregate(&vec![
        stats("b1", vec![1_000_000.0, 2_000_000.0], 42.0),
        stats("b2", vec![7_000_000.0], 7.0),
    ])
    .unwrap();
    assert_eq!(report.rows.len(), 2);
    assert_eq!(report.rows[0].name, "b1");
    assert_eq!(report.rows[1], ReportRow { name: "b2".to_string(), size: 7_000_000, objects: 7 });
    assert_eq!(report.total_size, 10_000_000);
}

#[test]
fn no_buckets_give_an_empty_report() {
    let report = aggregate(&vec![]).unwrap();
    assert!(report.rows.is_empty());
    assert_eq!(report.total_size, 0);
}

#[test]
fn bucket_without_classes_has_size_zero() {
    assert_eq!(bucket_size(&vec![]), Ok(0));
    let report = aggregate(&vec![stats("b0", vec![], 3.0)]).unwrap();
    assert_eq!(report.rows, vec![ReportRow { name: "b0".to_string(), size: 0, objects: 3 }]);
}

#[test]
fn same_answers_give_the_same_report() {
    let input = vec![
        stats("b1", vec![1_000_000.0, 2_000_000.0], 42.0),
        stats("b2", vec![7_000_000.0], 7.0),
    ];
    let first = aggregate(&input).unwrap();
    let second = aggregate(&input).unwrap();
    assert_eq!(first.rows, second.rows);
    assert_eq!(first.total_size, second.total_size);
}

#[test]
fn empty_size_result_fails_the_run() {
    let mut bad = stats("b2", vec![5.0], 1.0);
    bad.size_results.push(vec![]);
    let r = aggregate(&vec![stats("b1", vec![1.0], 1.0), bad, stats("b3", vec![2.0], 1.0)]);
    assert_eq!(
        r.unwrap_err(),
        AggregateError::Bucket {
            bucket: "b2".to_string(),
            metric: Metric::BucketSize,
            cause: DatapointError::NoDatapoints,
        }
    );
}

#[test]
fn empty_object_result_fails_the_run() {
    let mut bad = stats("b1", vec![5.0], 1.0);
    bad.objects_result = vec![];
    assert_eq!(
        aggregate(&vec![bad]).unwrap_err(),
        AggregateError::Bucket {
            bucket: "b1".to_string(),
            metric: Metric::NumberOfObjects,
            cause: DatapointError::NoDatapoints,
        }
    );
}

#[test]
fn first_failing_bucket_is_reported() {
    let mut a = stats("a", vec![1.0], 1.0);
    a.objects_result = vec![at(1, -3.0)];
    let mut b = stats("b", vec![1.0], 1.0);
    b.size_results = vec![vec![]];
    assert_eq!(
        aggregate(&vec![a, b]).unwrap_err(),
        AggregateError::Bucket {
            bucket: "a".to_string(),
            metric: Metric::NumberOfObjects,
            cause: DatapointError::Negative,
        }
    );
}

#[test]
fn bucket_size_overflow_fails() {
    let big = 18446744073709549568.0f64;
    assert_eq!(bucket_size(&vec![latest(big), latest(big)]), Err(DatapointError::Overflow));
    assert_eq!(bucket_size(&vec![latest(big)]), Ok(18446744073709549568));
}

#[test]
fn grand_total_overflow_fails() {
    let big = 18446744073709549568.0f64;
    let r = aggregate(&vec![stats("a", vec![big], 1.0), stats("b", vec![big], 1.0)]);
    assert_eq!(r.unwrap_err(), AggregateError::TotalOverflow);
}
