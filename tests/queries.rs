use bucket_sizes::{list_query, objects_query, size_queries, Bucket, Statistic, Unit};

fn bucket(classes: Option<Vec<&str>>) -> Bucket {
    Bucket {
        name: "b1".to_string(),
        region: None,
        storage_types: classes.map(|v| v.into_iter().map(|s| s.to_string()).collect()),
    }
}

fn pair(a: &str, b: &str) -> (String, String) {
    (a.to_string(), b.to_string())
}

#[test]
fn one_size_query_per_class() {
    let qs = size_queries(&bucket(Some(vec!["Standard", "Glacier"])), "BucketSizeBytes", 1_000_000);
    assert_eq!(qs.len(), 2);
    for (q, class) in qs.iter().zip(["Standard", "Glacier"]) {
        assert_eq!(q.namespace, "AWS/S3");
        assert_eq!(q.metric_name, "BucketSizeBytes");
        assert_eq!(q.dimensions, vec![pair("BucketName", "b1"), pair("StorageType", class)]);
        assert_eq!(q.start_secs, 1_000_000 - 172_800);
        assert_eq!(q.end_secs, 1_000_000);
        assert_eq!(q.period, 86_400);
        assert_eq!(q.statistic, Statistic::Average);
        assert_eq!(q.unit, Some(Unit::Bytes));
    }
}

#[test]
fn no_classes_no_size_queries() {
    assert!(size_queries(&bucket(None), "BucketSizeBytes", 0).is_empty());
    assert!(size_queries(&bucket(Some(vec![])), "BucketSizeBytes", 0).is_empty());
}

#[test]
fn object_query_covers_all_classes() {
    let q = objects_query(&bucket(Some(vec!["Standard"])), 500_000);
    assert_eq!(q.namespace, "AWS/S3");
    assert_eq!(q.metric_name, "NumberOfObjects");
    assert_eq!(q.dimensions, vec![pair("BucketName", "b1"), pair("StorageType", "AllStorageTypes")]);
    assert_eq!(q.start_secs, 500_000 - 172_800);
    assert_eq!(q.end_secs, 500_000);
    assert_eq!(q.period, 86_400);
    assert_eq!(q.statistic, Statistic::Average);
    assert_eq!(q.unit, None);
}

#[test]
fn listing_filters_on_a_chosen_bucket() {
    let all = list_query("BucketSizeBytes", &None);
    assert_eq!(all.namespace, "AWS/S3");
    assert_eq!(all.metric_name, "BucketSizeBytes");
    assert_eq!(all.dimensions, None);
    let one = list_query("BucketSizeBytes", &Some("b7".to_string()));
    assert_eq!(one.dimensions, Some(vec![pair("BucketName", "b7")]));
}
