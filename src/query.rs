use vstd::prelude::*;
use crate::bucket::Bucket;

verus! {

/// Seconds in one day: the period of every statistics query.
pub const ONE_DAY_SECS: i64 = 86400;

/// The trailing window of every statistics query, in seconds.
pub const WINDOW_SECS: i64 = 172800;

/// The statistic asked of the backend.
#[derive(Clone, Copy, Debug, PartialEq, Eq, Structural)]
pub enum Statistic {
    Average,
}

/// The unit a statistics query insists on.
#[derive(Clone, Copy, Debug, PartialEq, Eq, Structural)]
pub enum Unit {
    Bytes,
}

/// One time-range statistics request, ready to be sent.
#[derive(Debug, PartialEq, Eq)]
pub struct StatisticsQuery {
    pub namespace: String,
    pub metric_name: String,
    pub dimensions: Vec<(String, String)>,
    pub start_secs: i64,
    pub end_secs: i64,
    pub period: i32,
    pub statistic: Statistic,
    pub unit: Option<Unit>,
}

/// A request for the descriptors of one metric, optionally of one bucket.
#[derive(Debug, PartialEq, Eq)]
pub struct ListQuery {
    pub namespace: String,
    pub metric_name: String,
    pub dimensions: Option<Vec<(String, String)>>,
}

pub open spec fn pairs_view(v: Seq<(String, String)>) -> Seq<(Seq<char>, Seq<char>)> {
    v.map_values(|p: (String, String)| (p.0@, p.1@))
}

/// The fixed shape shared by all statistics queries over the window ending at `now`.
pub open spec fn window_query(q: StatisticsQuery, now: int) -> bool {
    &&& q.namespace@ == "AWS/S3"@
    &&& q.start_secs == now - WINDOW_SECS
    &&& q.end_secs == now
    &&& q.period == ONE_DAY_SECS
    &&& q.statistic == Statistic::Average
}

/// A query filtered to one bucket and one storage-type value.
pub open spec fn filtered(q: StatisticsQuery, bucket: Seq<char>, class: Seq<char>) -> bool {
    pairs_view(q.dimensions@) == seq![("BucketName"@, bucket), ("StorageType"@, class)]
}

fn namespace() -> (r: String)
    ensures
        r@ == "AWS/S3"@,
{
    "AWS/S3".to_owned()
}

fn dimensions_for(bucket: &String, class: String) -> (r: Vec<(String, String)>)
    ensures
        pairs_view(r@) == seq![("BucketName"@, bucket@), ("StorageType"@, class@)],
{
    let mut r: Vec<(String, String)> = Vec::new();
    r.push(("BucketName".to_owned(), bucket.clone()));
    r.push(("StorageType".to_owned(), class));
    assert(pairs_view(r@) =~= seq![("BucketName"@, bucket@), ("StorageType"@, class@)]);
    r
}

/// The size queries of a bucket: one per storage class, in order, each for
/// the average of `metric_name` in bytes over the two days ending at
/// `now_secs`. A bucket without storage classes gets none.
pub fn size_queries(bucket: &Bucket, metric_name: &str, now_secs: i64) -> (r: Vec<StatisticsQuery>)
    requires
        now_secs >= i64::MIN + WINDOW_SECS,
    ensures
        r@.len() == bucket.classes().len(),
        forall|i: int|
            #![trigger r@[i]]
            0 <= i < r@.len() ==> window_query(r@[i], now_secs as int) && r@[i].metric_name@
                == metric_name@ && r@[i].unit == Some(Unit::Bytes) && filtered(
                r@[i],
                bucket.name@,
                bucket.classes()[i]@,
            ),
{
    let mut r: Vec<StatisticsQuery> = Vec::new();
    let classes: &Vec<String> = match &bucket.storage_types {
        Some(v) => v,
        None => return r,
    };
    let mut i: usize = 0;
    while i < classes.len()
        invariant
            0 <= i <= classes@.len(),
            classes@ == bucket.classes(),
            now_secs >= i64::MIN + WINDOW_SECS,
            r@.len() == i,
            forall|k: int|
                #![trigger r@[k]]
                0 <= k < i ==> window_query(r@[k], now_secs as int) && r@[k].metric_name@
                    == metric_name@ && r@[k].unit == Some(Unit::Bytes) && filtered(
                    r@[k],
                    bucket.name@,
                    bucket.classes()[k]@,
                ),
        decreases classes@.len() - i,
    {
        let q = StatisticsQuery {
            namespace: namespace(),
            metric_name: metric_name.to_owned(),
            dimensions: dimensions_for(&bucket.name, classes[i].clone()),
            start_secs: now_secs - WINDOW_SECS,
            end_secs: now_secs,
            period: 86400,
            statistic: Statistic::Average,
            unit: Some(Unit::Bytes),
        };
        r.push(q);
        i = i + 1;
    }
    r
}

/// The object-count query of a bucket: the average of `NumberOfObjects`
/// over all storage classes combined, in no particular unit, over the two
/// days ending at `now_secs`.
pub fn objects_query(bucket: &Bucket, now_secs: i64) -> (r: StatisticsQuery)
    requires
        now_secs >= i64::MIN + WINDOW_SECS,
    ensures
        window_query(r, now_secs as int),
        r.metric_name@ == "NumberOfObjects"@,
        r.unit is None,
        filtered(r, bucket.name@, "AllStorageTypes"@),
{
    StatisticsQuery {
        namespace: namespace(),
        metric_name: "NumberOfObjects".to_owned(),
        dimensions: dimensions_for(&bucket.name, "AllStorageTypes".to_owned()),
        start_secs: now_secs - WINDOW_SECS,
        end_secs: now_secs,
        period: 86400,
        statistic: Statistic::Average,
        unit: None,
    }
}

/// The descriptor listing for `metric_name`, filtered to one bucket where
/// one is given.
pub fn list_query(metric_name: &str, bucket_name: &Option<String>) -> (r: ListQuery)
    ensures
        r.namespace@ == "AWS/S3"@,
        r.metric_name@ == metric_name@,
        match bucket_name {
            None => r.dimensions is None,
            Some(b) => r.dimensions is Some && pairs_view(r.dimensions->Some_0@) == seq![
                ("BucketName"@, b@),
            ],
        },
{
    let dimensions = match bucket_name {
        None => None,
        Some(b) => {
            let mut v: Vec<(String, String)> = Vec::new();
            v.push(("BucketName".to_owned(), b.clone()));
            assert(pairs_view(v@) =~= seq![("BucketName"@, b@)]);
            Some(v)
        },
    };
    ListQuery { namespace: namespace(), metric_name: metric_name.to_owned(), dimensions }
}

} // verus!
