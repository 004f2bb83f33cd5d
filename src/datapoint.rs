use vstd::prelude::*;
use vstd::arithmetic::power2::{
    pow2,
    lemma2_to64,
    lemma2_to64_rest,
    lemma_pow2_adds,
    lemma_pow2_pos,
    lemma_pow2_strictly_increases,
    lemma_pow2_unfold,
};

verus! {

/// Why a statistics result gave no usable value.
#[derive(Clone, Copy, Debug, PartialEq, Eq, Structural)]
pub enum DatapointError {
    /// The query returned no samples at all.
    NoDatapoints,
    /// A sample came without its timestamp.
    MissingTimestamp,
    /// The most recent sample came without an average.
    MissingAverage,
    /// The average is infinite or not a number.
    NotFinite,
    /// The average is below zero.
    Negative,
    /// The rounded value, or a sum of such values, exceeds `u64::MAX`.
    Overflow,
}

/// A point in time: whole seconds since the epoch and the nanoseconds past them.
#[derive(Clone, Copy, Debug, PartialEq, Eq, Structural)]
pub struct Timestamp {
    pub secs: i64,
    pub nanos: u32,
}

/// One aggregated sample. The average is the bit pattern of an IEEE-754
/// binary64 value, as `f64::to_bits` gives it.
#[derive(Clone, Copy, Debug, PartialEq, Eq, Structural)]
pub struct Datapoint {
    pub timestamp: Option<Timestamp>,
    pub average: Option<u64>,
}

/// The samples that one statistics query returned, in no particular order.
pub type StatisticsResult = Vec<Datapoint>;

pub open spec fn later(a: Timestamp, b: Timestamp) -> bool {
    a.secs > b.secs || (a.secs == b.secs && a.nanos > b.nanos)
}

pub open spec fn stamp(d: Datapoint) -> Timestamp {
    match d.timestamp {
        Some(t) => t,
        None => Timestamp { secs: 0, nanos: 0 },
    }
}

/// The biased exponent field of a binary64 bit pattern.
pub open spec fn exponent_field(b: u64) -> nat {
    ((b as nat) / 0x10_0000_0000_0000) % 2048
}

/// The significand as an integer, with the hidden bit of normal numbers.
pub open spec fn significand(b: u64) -> nat {
    let f = (b as nat) % 0x10_0000_0000_0000;
    if exponent_field(b) == 0 {
        f
    } else {
        f + 0x10_0000_0000_0000
    }
}

/// The power of two that scales the significand.
pub open spec fn scale(b: u64) -> int {
    (if exponent_field(b) == 0 {
        1
    } else {
        exponent_field(b) as int
    }) - 1075
}

pub open spec fn sign_set(b: u64) -> bool {
    (b as nat) / 0x8000_0000_0000_0000 == 1
}

/// A non-negative finite binary64 value rounded to the nearest integer,
/// halves away from zero: the floor of the value plus one half.
pub open spec fn rounded(b: u64) -> nat {
    let m = significand(b);
    let e = scale(b);
    if e >= 0 {
        m * pow2(e as nat)
    } else {
        (2 * m + pow2((-e) as nat)) / pow2((1 - e) as nat)
    }
}

/// What an average contributes as a whole count, or why it cannot.
pub open spec fn average_value(b: u64) -> Result<u64, DatapointError> {
    if exponent_field(b) == 2047 {
        Err(DatapointError::NotFinite)
    } else if sign_set(b) && significand(b) != 0 {
        Err(DatapointError::Negative)
    } else if rounded(b) > u64::MAX {
        Err(DatapointError::Overflow)
    } else {
        Ok(rounded(b) as u64)
    }
}

/// The position of the most recent of the first `n` samples; the first
/// such on equal timestamps.
pub open spec fn latest_among(s: Seq<Datapoint>, n: int) -> int
    decreases n,
{
    if n <= 1 {
        0
    } else {
        let j = latest_among(s, n - 1);
        if later(stamp(s[n - 1]), stamp(s[j])) {
            n - 1
        } else {
            j
        }
    }
}

pub open spec fn latest(s: Seq<Datapoint>) -> int {
    latest_among(s, s.len() as int)
}

/// The value of the most recent sample, or why there is none.
pub open spec fn selected(s: Seq<Datapoint>) -> Result<u64, DatapointError> {
    if s.len() == 0 {
        Err(DatapointError::NoDatapoints)
    } else if exists|i: int| 0 <= i < s.len() && s[i].timestamp is None {
        Err(DatapointError::MissingTimestamp)
    } else {
        match s[latest(s)].average {
            None => Err(DatapointError::MissingAverage),
            Some(b) => average_value(b),
        }
    }
}

/// No sample is later than the one that `latest` picks.
pub proof fn lemma_latest_is_latest(s: Seq<Datapoint>, n: int)
    requires
        1 <= n <= s.len(),
    ensures
        0 <= latest_among(s, n) < n,
        forall|k: int| 0 <= k < n ==> !later(stamp(s[k]), stamp(s[latest_among(s, n)])),
    decreases n,
{
    if n > 1 {
        lemma_latest_is_latest(s, n - 1);
        let j = latest_among(s, n - 1);
        let r = latest_among(s, n);
        assert forall|k: int| 0 <= k < n implies !later(stamp(s[k]), stamp(s[r])) by {
            if k < n - 1 {
                assert(!later(stamp(s[k]), stamp(s[j])));
            }
        }
    }
}

fn is_later(a: &Timestamp, b: &Timestamp) -> (r: bool)
    ensures
        r == later(*a, *b),
{
    a.secs > b.secs || (a.secs == b.secs && a.nanos > b.nanos)
}

/// Computes `2^k` for `k` below 64.
fn power_of_two(k: u64) -> (r: u64)
    requires
        k < 64,
    ensures
        r as nat == pow2(k as nat),
{
    let mut p: u64 = 1;
    let mut i: u64 = 0;
    proof {
        lemma2_to64();
    }
    while i < k
        invariant
            i <= k < 64,
            p as nat == pow2(i as nat),
        decreases k - i,
    {
        proof {
            lemma_pow2_unfold((i + 1) as nat);
            lemma_pow2_strictly_increases((i + 1) as nat, 64nat);
            lemma2_to64();
        }
        p = p * 2;
        i = i + 1;
    }
    p
}

/// Rounds the binary64 value with bit pattern `bits` to a whole count,
/// halves away from zero. Infinite, not-a-number and negative values fail,
/// and so do values past `u64::MAX`; negative zero counts as zero.
pub fn round_average(bits: u64) -> (r: Result<u64, DatapointError>)
    ensures
        r == average_value(bits),
{
    let exp: u64 = (bits / 0x10_0000_0000_0000) % 2048;
    let frac: u64 = bits % 0x10_0000_0000_0000;
    if exp == 2047 {
        return Err(DatapointError::NotFinite);
    }
    let m: u64 = if exp == 0 {
        frac
    } else {
        frac + 0x10_0000_0000_0000
    };
    if bits / 0x8000_0000_0000_0000 == 1 && m != 0 {
        return Err(DatapointError::Negative);
    }
    let ex: u64 = if exp == 0 {
        1
    } else {
        exp
    };
    proof {
        lemma2_to64();
    }
    if ex >= 1075 {
        let k: u64 = ex - 1075;
        let mut v: u64 = m;
        let mut i: u64 = 0;
        while i < k
            invariant
                i <= k,
                k as int == scale(bits),
                m as nat == significand(bits),
                exponent_field(bits) != 2047,
                !(sign_set(bits) && significand(bits) != 0),
                v as nat == (m as nat) * pow2(i as nat),
            decreases k - i,
        {
            proof {
                lemma_pow2_unfold((i + 1) as nat);
            }
            if v > 0x7fff_ffff_ffff_ffff {
                proof {
                    lemma_pow2_adds(i as nat, (k - i) as nat);
                    lemma_pow2_strictly_increases(0nat, (k - i) as nat);
                    lemma2_to64();
                    assert((m as nat) * pow2(k as nat) == (v as nat) * pow2((k - i) as nat)) by (nonlinear_arith)
                        requires
                            v as nat == (m as nat) * pow2(i as nat),
                            pow2(k as nat) == pow2(i as nat) * pow2((k - i) as nat),
                    ;
                    assert((v as nat) * pow2((k - i) as nat) >= (v as nat) * 2) by (nonlinear_arith)
                        requires
                            pow2((k - i) as nat) >= 2,
                    ;
                    assert(rounded(bits) == (m as nat) * pow2(k as nat));
                    assert(rounded(bits) > u64::MAX);
                }
                return Err(DatapointError::Overflow);
            }
            proof {
                assert((m as nat) * pow2((i + 1) as nat) == ((m as nat) * pow2(i as nat)) * 2) by (nonlinear_arith)
                    requires
                        pow2((i + 1) as nat) == 2 * pow2(i as nat),
                ;
            }
            v = v * 2;
            i = i + 1;
        }
        Ok(v)
    } else {
        let k: u64 = 1075 - ex;
        proof {
            lemma_pow2_unfold((k + 1) as nat);
        }
        if k >= 54 {
            proof {
                lemma2_to64_rest();
                if k > 54 {
                    lemma_pow2_strictly_increases(54nat, k as nat);
                }
                lemma_pow2_pos(k as nat);
                assert((2 * (m as nat) + pow2(k as nat)) / pow2((k + 1) as nat) == 0) by (nonlinear_arith)
                    requires
                        2 * (m as nat) < pow2(k as nat),
                        pow2((k + 1) as nat) == 2 * pow2(k as nat),
                ;
            }
            Ok(0)
        } else {
            let p: u64 = power_of_two(k);
            proof {
                lemma_pow2_strictly_increases(k as nat, 54nat);
                lemma2_to64_rest();
            }
            Ok((2 * m + p) / (2 * p))
        }
    }
}

/// Picks the most recent sample and rounds its average. Fails on an empty
/// result, a sample without a timestamp, or an average that is missing,
/// not finite, negative or past `u64::MAX`.
pub fn select_latest(s: &StatisticsResult) -> (r: Result<u64, DatapointError>)
    ensures
        r == selected(s@),
        r is Ok ==> forall|k: int|
            0 <= k < s@.len() ==> !later(stamp(s@[k]), stamp(s@[latest(s@)])),
{
    if s.len() == 0 {
        return Err(DatapointError::NoDatapoints);
    }
    let mut i: usize = 0;
    while i < s.len()
        invariant
            0 <= i <= s@.len(),
            forall|k: int| 0 <= k < i ==> s@[k].timestamp is Some,
        decreases s@.len() - i,
    {
        match &s[i].timestamp {
            None => return Err(DatapointError::MissingTimestamp),
            Some(_) => {},
        }
        i = i + 1;
    }
    let mut best: usize = 0;
    let mut j: usize = 1;
    while j < s.len()
        invariant
            1 <= j <= s@.len(),
            best as int == latest_among(s@, j as int),
            forall|k: int| 0 <= k < s@.len() ==> s@[k].timestamp is Some,
        decreases s@.len() - j,
    {
        proof {
            lemma_latest_is_latest(s@, j as int);
        }
        let tj = match &s[j].timestamp {
            Some(t) => *t,
            None => Timestamp { secs: 0, nanos: 0 },
        };
        let tb = match &s[best].timestamp {
            Some(t) => *t,
            None => Timestamp { secs: 0, nanos: 0 },
        };
        if is_later(&tj, &tb) {
            best = j;
        }
        j = j + 1;
    }
    proof {
        lemma_latest_is_latest(s@, s@.len() as int);
    }
    match s[best].average {
        None => Err(DatapointError::MissingAverage),
        Some(b) => round_average(b),
    }
}

} // verus!
