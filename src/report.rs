use vstd::prelude::*;
use crate::bucket_metrics::inventory_of;
use crate::dimension::MetricDescriptor;
use crate::datapoint::{DatapointError, StatisticsResult, select_latest, selected};

verus! {

/// Which of a bucket's metrics a failure concerns.
#[derive(Clone, Copy, Debug, PartialEq, Eq, Structural)]
pub enum Metric {
    BucketSize,
    NumberOfObjects,
}

/// Why a run produced no report.
#[derive(Debug, PartialEq, Eq)]
pub enum AggregateError {
    /// A query of `bucket` for `metric` gave no usable value.
    Bucket { bucket: String, metric: Metric, cause: DatapointError },
    /// The grand total exceeds `u64::MAX`.
    TotalOverflow,
}

/// What the backend returned for one bucket: one result per size query,
/// in the order of its storage classes, and the object-count result.
#[derive(Debug)]
pub struct BucketStats {
    pub name: String,
    pub size_results: Vec<StatisticsResult>,
    pub objects_result: StatisticsResult,
}

/// One line of the report.
#[derive(Clone, Debug, PartialEq, Eq)]
pub struct ReportRow {
    pub name: String,
    pub size: u64,
    pub objects: u64,
}

/// The rows, one per bucket in order, and the sum of their sizes.
#[derive(Debug)]
pub struct AggregateReport {
    pub rows: Vec<ReportRow>,
    pub total_size: u64,
}

/// A bucket's size: the sum over its size results of each one's selected
/// value; the first failure in order wins.
pub open spec fn size_total(rs: Seq<StatisticsResult>) -> Result<u64, DatapointError>
    decreases rs.len(),
{
    if rs.len() == 0 {
        Ok(0)
    } else {
        match size_total(rs.drop_last()) {
            Err(e) => Err(e),
            Ok(a) => match selected(rs.last()@) {
                Err(e) => Err(e),
                Ok(v) => if a + v > u64::MAX {
                    Err(DatapointError::Overflow)
                } else {
                    Ok((a + v) as u64)
                },
            },
        }
    }
}

/// The report over the buckets' results, or the first failure in order.
pub open spec fn report_of(s: Seq<BucketStats>) -> Result<(Seq<ReportRow>, u64), AggregateError>
    decreases s.len(),
{
    if s.len() == 0 {
        Ok((Seq::empty(), 0))
    } else {
        match report_of(s.drop_last()) {
            Err(e) => Err(e),
            Ok((rows, total)) => {
                let b = s.last();
                match size_total(b.size_results@) {
                    Err(c) => Err(
                        AggregateError::Bucket { bucket: b.name, metric: Metric::BucketSize, cause: c },
                    ),
                    Ok(sz) => match selected(b.objects_result@) {
                        Err(c) => Err(
                            AggregateError::Bucket {
                                bucket: b.name,
                                metric: Metric::NumberOfObjects,
                                cause: c,
                            },
                        ),
                        Ok(n) => if total + sz > u64::MAX {
                            Err(AggregateError::TotalOverflow)
                        } else {
                            Ok(
                                (
                                    rows.push(ReportRow { name: b.name, size: sz, objects: n }),
                                    (total + sz) as u64,
                                ),
                            )
                        },
                    },
                }
            },
        }
    }
}

pub open spec fn sum_sizes(rows: Seq<ReportRow>) -> int
    decreases rows.len(),
{
    if rows.len() == 0 {
        0
    } else {
        sum_sizes(rows.drop_last()) + rows.last().size
    }
}

/// Sums the selected values of a bucket's size results. Fails with the
/// first result, in order, that gives no value, or when the sum exceeds
/// `u64::MAX`. No results give zero.
pub fn bucket_size(results: &Vec<StatisticsResult>) -> (r: Result<u64, DatapointError>)
    ensures
        r == size_total(results@),
{
    let mut total: u64 = 0;
    let mut i: usize = 0;
    while i < results.len()
        invariant
            0 <= i <= results@.len(),
            size_total(results@.subrange(0, i as int)) == Ok::<u64, DatapointError>(total),
        decreases results@.len() - i,
    {
        assert(results@.subrange(0, i + 1).drop_last() =~= results@.subrange(0, i as int));
        let v = match select_latest(&results[i]) {
            Ok(v) => v,
            Err(e) => {
                proof {
                    lemma_size_total_err_stays(results@, i as int + 1);
                }
                return Err(e);
            },
        };
        if v > u64::MAX - total {
            proof {
                lemma_size_total_err_stays(results@, i as int + 1);
            }
            return Err(DatapointError::Overflow);
        }
        total = total + v;
        i = i + 1;
    }
    assert(results@.subrange(0, results@.len() as int) =~= results@);
    Ok(total)
}

/// A failure on a prefix of the size results is the failure of them all.
proof fn lemma_size_total_err_stays(rs: Seq<StatisticsResult>, n: int)
    requires
        0 <= n <= rs.len(),
        size_total(rs.subrange(0, n)) is Err,
    ensures
        size_total(rs) == size_total(rs.subrange(0, n)),
    decreases rs.len() - n,
{
    if n < rs.len() {
        assert(rs.subrange(0, n + 1).drop_last() =~= rs.subrange(0, n));
        lemma_size_total_err_stays(rs, n + 1);
    } else {
        assert(rs.subrange(0, n) =~= rs);
    }
}

/// A failure on a prefix of the buckets is the failure of the whole run.
proof fn lemma_report_err_stays(s: Seq<BucketStats>, n: int)
    requires
        0 <= n <= s.len(),
        report_of(s.subrange(0, n)) is Err,
    ensures
        report_of(s) == report_of(s.subrange(0, n)),
    decreases s.len() - n,
{
    if n < s.len() {
        assert(s.subrange(0, n + 1).drop_last() =~= s.subrange(0, n));
        lemma_report_err_stays(s, n + 1);
    } else {
        assert(s.subrange(0, n) =~= s);
    }
}

/// Sizes every bucket and counts its objects, in order, and sums the sizes
/// into a grand total. Any bucket whose results give no value fails the
/// whole run, naming the bucket and the metric; no partial report is made.
pub fn aggregate(stats: &Vec<BucketStats>) -> (r: Result<AggregateReport, AggregateError>)
    ensures
        match r {
            Ok(rep) => report_of(stats@) == Ok::<(Seq<ReportRow>, u64), AggregateError>(
                (rep.rows@, rep.total_size),
            ),
            Err(e) => report_of(stats@) == Err::<(Seq<ReportRow>, u64), AggregateError>(e),
        },
{
    let mut rows: Vec<ReportRow> = Vec::new();
    let mut total: u64 = 0;
    let mut i: usize = 0;
    while i < stats.len()
        invariant
            0 <= i <= stats@.len(),
            report_of(stats@.subrange(0, i as int)) == Ok::<
                (Seq<ReportRow>, u64),
                AggregateError,
            >((rows@, total)),
        decreases stats@.len() - i,
    {
        assert(stats@.subrange(0, i + 1).drop_last() =~= stats@.subrange(0, i as int));
        let b = &stats[i];
        let size = match bucket_size(&b.size_results) {
            Ok(v) => v,
            Err(c) => {
                proof {
                    lemma_report_err_stays(stats@, i as int + 1);
                }
                return Err(
                    AggregateError::Bucket { bucket: b.name.clone(), metric: Metric::BucketSize, cause: c },
                );
            },
        };
        let objects = match select_latest(&b.objects_result) {
            Ok(v) => v,
            Err(c) => {
                proof {
                    lemma_report_err_stays(stats@, i as int + 1);
                }
                return Err(
                    AggregateError::Bucket {
                        bucket: b.name.clone(),
                        metric: Metric::NumberOfObjects,
                        cause: c,
                    },
                );
            },
        };
        if size > u64::MAX - total {
            proof {
                lemma_report_err_stays(stats@, i as int + 1);
            }
            return Err(AggregateError::TotalOverflow);
        }
        rows.push(ReportRow { name: b.name.clone(), size, objects });
        total = total + size;
        i = i + 1;
    }
    assert(stats@.subrange(0, stats@.len() as int) =~= stats@);
    Ok(AggregateReport { rows, total_size: total })
}

/// A report lists every bucket once, in order, with its size and object
/// count as selected from its own results, and its grand total is the sum
/// of the rows' sizes.
pub proof fn lemma_report_rows(s: Seq<BucketStats>)
    requires
        report_of(s) is Ok,
    ensures
        ({
            let (rows, total) = report_of(s)->Ok_0;
            &&& rows.len() == s.len()
            &&& total == sum_sizes(rows)
            &&& forall|i: int|
                #![trigger rows[i]]
                0 <= i < s.len() ==> rows[i].name == s[i].name && size_total(s[i].size_results@)
                    == Ok::<u64, DatapointError>(rows[i].size) && selected(s[i].objects_result@)
                    == Ok::<u64, DatapointError>(rows[i].objects)
        }),
    decreases s.len(),
{
    if s.len() > 0 {
        lemma_report_rows(s.drop_last());
        let (rows, total) = report_of(s)->Ok_0;
        let (prev, _) = report_of(s.drop_last())->Ok_0;
        assert(rows.drop_last() =~= prev);
        assert forall|i: int| #![trigger rows[i]] 0 <= i < s.len() implies rows[i].name == s[i].name
            && size_total(s[i].size_results@) == Ok::<u64, DatapointError>(rows[i].size)
            && selected(s[i].objects_result@) == Ok::<u64, DatapointError>(rows[i].objects) by {
            if i < s.len() - 1 {
                assert(rows[i] == prev[i]);
                assert(s[i] == s.drop_last()[i]);
            }
        }
    }
}

/// Two runs against unchanged backend state, that is over the same
/// descriptors and the same statistics results, find the same buckets with
/// the same storage classes and give the same report, or the same failure.
pub proof fn lemma_report_deterministic(
    m1: Seq<MetricDescriptor>,
    m2: Seq<MetricDescriptor>,
    s1: Seq<BucketStats>,
    s2: Seq<BucketStats>,
)
    requires
        m1 == m2,
        s1 == s2,
    ensures
        inventory_of(m1) == inventory_of(m2),
        report_of(s1) == report_of(s2),
{
}

/// A size result without samples fails the bucket's size.
proof fn lemma_empty_size_result(rs: Seq<StatisticsResult>, j: int)
    requires
        0 <= j < rs.len(),
        rs[j]@.len() == 0,
    ensures
        size_total(rs) is Err,
    decreases rs.len(),
{
    if j < rs.len() - 1 {
        assert(rs.drop_last()[j] == rs[j]);
        lemma_empty_size_result(rs.drop_last(), j);
    }
}

/// If any size query of any bucket returned no samples, the run fails and
/// no report is made, whatever the other buckets returned.
pub proof fn lemma_empty_size_result_fails(s: Seq<BucketStats>, i: int, j: int)
    requires
        0 <= i < s.len(),
        0 <= j < s[i].size_results@.len(),
        s[i].size_results@[j]@.len() == 0,
    ensures
        report_of(s) is Err,
    decreases s.len(),
{
    if i < s.len() - 1 {
        assert(s.drop_last()[i] == s[i]);
        lemma_empty_size_result_fails(s.drop_last(), i, j);
    } else {
        lemma_empty_size_result(s[i].size_results@, j);
    }
}

} // verus!
