use bucket_sizes::{parse_dimensions, BucketMetrics, Dimension, MetricDescriptor};

fn dim(name: &str, value: &str) -> Dimension {
    Dimension { name: Some(name.to_string()), value: Some(value.to_string()) }
}

fn desc(dims: Vec<Dimension>) -> MetricDescriptor {
    MetricDescriptor { dimensions: Some(dims) }
}

#[test]
fn descriptor_without_bucket_name_is_skipped() {
    let m = desc(vec![dim("StorageType", "Standard"), dim("FilterId", "x")]);
    assert_eq!(parse_dimensions(&m), None);
}

#[test]
fn descriptor_without_dimensions_is_skipped() {
    let m = MetricDescriptor { dimensions: None };
    assert_eq!(parse_dimensions(&m), None);
    let empty = desc(vec![]);
    assert_eq!(parse_dimensions(&empty), None);
}

#[test]
fn descriptor_with_valueless_bucket_name_is_skipped() {
    let m = desc(vec![
        Dimension { name: Some("BucketName".to_string()), value: None },
        dim("StorageType", "Standard"),
    ]);
    assert_eq!(parse_dimensions(&m), None);
}

#[test]
fn descriptor_with_valueless_storage_type_is_skipped() {
    let m = desc(vec![
        dim("BucketName", "b1"),
        Dimension { name: Some("StorageType".to_string()), value: None },
    ]);
    assert_eq!(parse_dimensions(&m), None);
}

#[test]
fn descriptor_fields_in_any_order() {
    let m = desc(vec![
        Dimension { name: None, value: Some("ignored".to_string()) },
        dim("StorageType", "Glacier"),
        dim("Other", "z"),
        dim("BucketName", "b1"),
    ]);
    assert_eq!(parse_dimensions(&m), Some(("b1".to_string(), "Glacier".to_string())));
}

#[test]
fn descriptor_without_storage_type_gives_empty_class() {
    let m = desc(vec![dim("BucketName", "b2")]);
    assert_eq!(parse_dimensions(&m), Some(("b2".to_string(), String::new())));
}

#[test]
fn inventory_groups_classes_by_bucket() {
    let ms = vec![
        desc(vec![dim("BucketName", "b1"), dim("StorageType", "Standard")]),
        desc(vec![dim("StorageType", "Glacier"), dim("BucketName", "b1")]),
        desc(vec![dim("BucketName", "b2")]),
        desc(vec![dim("StorageType", "Standard")]),
        MetricDescriptor { dimensions: None },
    ];
    let inv = BucketMetrics::from_metrics(&ms);
    assert_eq!(
        inv.0,
        vec![
            ("b1".to_string(), vec!["Standard".to_string(), "Glacier".to_string()]),
            ("b2".to_string(), vec![String::new()]),
        ]
    );
    assert_eq!(inv.bucket_names(), vec!["b1".to_string(), "b2".to_string()]);
    assert_eq!(inv.storage_types("b1"), &vec!["Standard".to_string(), "Glacier".to_string()]);
    assert_eq!(inv.storage_types("b2"), &vec![String::new()]);
}

#[test]
fn inventory_keeps_each_class_once() {
    let ms = vec![
        desc(vec![dim("BucketName", "b1"), dim("StorageType", "Standard")]),
        desc(vec![dim("BucketName", "b1"), dim("StorageType", "Standard")]),
    ];
    let inv = BucketMetrics::from_metrics(&ms);
    assert_eq!(inv.0, vec![("b1".to_string(), vec!["Standard".to_string()])]);
}

#[test]
fn inventory_of_nothing_is_empty() {
    let inv = BucketMetrics::from_metrics(&vec![]);
    assert!(inv.0.is_empty());
    assert!(inv.bucket_names().is_empty());
    assert!(inv.buckets().is_empty());
}

#[test]
fn inventory_is_the_same_on_the_same_input() {
    let ms = vec![
        desc(vec![dim("BucketName", "b2"), dim("StorageType", "Standard")]),
        desc(vec![dim("BucketName", "b1")]),
    ];
    let a = BucketMetrics::from_metrics(&ms);
    let b = BucketMetrics::from_metrics(&ms);
    assert_eq!(a, b);
}

#[test]
fn buckets_follow_the_inventory() {
    let ms = vec![
        desc(vec![dim("BucketName", "b1"), dim("StorageType", "Standard")]),
        desc(vec![dim("BucketName", "b2")]),
    ];
    let bs = BucketMetrics::from_metrics(&ms).buckets();
    assert_eq!(bs.len(), 2);
    assert_eq!(bs[0].name, "b1");
    assert_eq!(bs[0].region, None);
    assert_eq!(bs[0].storage_types, Some(vec!["Standard".to_string()]));
    assert_eq!(bs[1].name, "b2");
    assert_eq!(bs[1].storage_types, Some(vec![String::new()]));
}
