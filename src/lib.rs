//! Bucket inventory and size aggregation over a metrics backend's series.
//!
//! The backend is reached by the caller; this library decides what to ask
//! and turns the answers into one size and object count per bucket.

pub mod bucket;
pub mod bucket_metrics;
pub mod datapoint;
pub mod dimension;
pub mod query;
pub mod report;

pub use bucket::Bucket;
pub use bucket_metrics::{
    BucketMetrics, InventoryView, inventory_of, inventory_wf, lemma_inventory_wf,
    lemma_unnamed_descriptor_skipped,
};
pub use datapoint::{
    Datapoint, DatapointError, StatisticsResult, Timestamp, round_average, select_latest,
};
pub use dimension::{Dimension, MetricDescriptor, parse_dimensions};
pub use query::{
    ListQuery, ONE_DAY_SECS, Statistic, StatisticsQuery, Unit, WINDOW_SECS, list_query,
    objects_query, size_queries,
};
pub use report::{
    AggregateError, AggregateReport, BucketStats, Metric, ReportRow, aggregate, bucket_size,
    lemma_empty_size_result_fails, lemma_report_deterministic, lemma_report_rows,
};
