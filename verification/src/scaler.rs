//! Feature standardization: mean, population variance, standard deviation,
//! and the z-score transform.

use vstd::prelude::*;

use crate::data::Record;
use crate::error::{DataError, TrainError};
use crate::fixed::{chk, is_sqrt, lift, tdiv, Fixed, MAX_RAW, SCALE};
use crate::fixed::{
    lemma_mul_abs_bound, lemma_tdiv_bounds, lemma_tdiv_exact, lemma_tdiv_quotient_bound,
};

verus! {

/// Raw values of a sequence of fixed-point numbers.
pub open spec fn raws(s: Seq<Fixed>) -> Seq<int> {
    s.map_values(|f: Fixed| f.raw as int)
}

/// Every element is in the representable range.
pub open spec fn all_valid(s: Seq<Fixed>) -> bool {
    forall|i: int| 0 <= i < s.len() ==> (#[trigger] s[i]).valid()
}

/// Sum of a sequence of raw values.
pub open spec fn sum_raw(s: Seq<int>) -> int
    decreases s.len(),
{
    if s.len() == 0 {
        0
    } else {
        sum_raw(s.drop_last()) + s.last()
    }
}

/// Mean of a sequence of raw values: the truncated average.
pub open spec fn mean_raw(s: Seq<int>) -> int
    recommends
        s.len() > 0,
{
    tdiv(sum_raw(s), s.len() as int)
}

/// One squared deviation from the mean, at fixed-point precision.
pub open spec fn sq_dev_raw(x: int, m: int) -> Option<int> {
    chk(tdiv((x - m) * (x - m), SCALE as int))
}

/// Sum of the squared deviations; `None` as soon as one of them leaves the
/// representable range.
pub open spec fn sq_dev_sum_raw(s: Seq<int>, m: int) -> Option<int>
    decreases s.len(),
{
    if s.len() == 0 {
        Some(0)
    } else {
        match sq_dev_sum_raw(s.drop_last(), m) {
            None => None,
            Some(acc) => match sq_dev_raw(s.last(), m) {
                None => None,
                Some(sq) => Some(acc + sq),
            },
        }
    }
}

/// Population variance (divisor is the length, not length minus one).
pub open spec fn variance_raw(s: Seq<int>) -> Option<int>
    recommends
        s.len() > 0,
{
    match sq_dev_sum_raw(s, mean_raw(s)) {
        None => None,
        Some(t) => Some(tdiv(t, s.len() as int)),
    }
}

/// The z-score transform of `x` under mean `m` and standard deviation `sd`.
pub open spec fn standardize_raw(x: int, m: int, sd: int) -> Option<int>
    recommends
        sd > 0,
{
    chk(tdiv((x - m) * (SCALE as int), sd))
}

/// Once a prefix of the squared-deviation sum is `None`, the whole sum is.
pub proof fn lemma_sq_dev_sum_none_extends(s: Seq<int>, m: int, j: int)
    requires
        0 <= j <= s.len(),
        sq_dev_sum_raw(s.take(j), m) is None,
    ensures
        sq_dev_sum_raw(s, m) is None,
    decreases s.len() - j,
{
    if j == s.len() {
        assert(s.take(j) =~= s);
    } else {
        assert(s.take(j + 1).drop_last() =~= s.take(j));
        lemma_sq_dev_sum_none_extends(s, m, j + 1);
    }
}

/// Mean of a list of numbers.
pub fn get_mean(values: &Vec<Fixed>) -> (r: Fixed)
    requires
        values@.len() > 0,
        all_valid(values@),
    ensures
        r.valid(),
        r.raw == mean_raw(raws(values@)),
{
    let n: usize = values.len();
    let mut sum: i128 = 0;
    let mut i: usize = 0;
    while i < n
        invariant
            n == values@.len(),
            all_valid(values@),
            i <= n,
            sum == sum_raw(raws(values@).take(i as int)),
            -(i as int) * (MAX_RAW as int) <= sum <= (i as int) * (MAX_RAW as int),
        decreases n - i,
    {
        proof {
            assert(raws(values@).take(i + 1).drop_last() =~= raws(values@).take(i as int));
            assert((i as int) * (MAX_RAW as int) + MAX_RAW as int == (i + 1) * (MAX_RAW as int))
                by (nonlinear_arith);
        }
        sum = sum + values[i].raw as i128;
        i = i + 1;
    }
    proof {
        assert(raws(values@).take(n as int) =~= raws(values@));
        lemma_tdiv_quotient_bound(sum as int, n as int, MAX_RAW as int);
    }
    let q: i128 = match sum.checked_div(n as i128) {
        Some(q) => q,
        None => {
            proof {
                assert(false);
            }
            0
        },
    };
    Fixed { raw: q as i64 }
}

/// Population variance of a list of numbers; `None` when a squared deviation
/// leaves the representable range.
pub fn get_variance(values: &Vec<Fixed>) -> (r: Option<Fixed>)
    requires
        values@.len() > 0,
        all_valid(values@),
    ensures
        match variance_raw(raws(values@)) {
            Some(t) => 0 <= t <= MAX_RAW as int && r == Some(Fixed { raw: t as i64 }),
            None => r is None,
        },
{
    let n: usize = values.len();
    let mean = get_mean(values);
    let ghost rs = raws(values@);
    let ghost m = mean.raw as int;
    let mut acc: i128 = 0;
    let mut i: usize = 0;
    while i < n
        invariant
            n == values@.len(),
            all_valid(values@),
            mean.valid(),
            m == mean.raw as int,
            m == mean_raw(rs),
            rs == raws(values@),
            i <= n,
            Some(acc as int) == sq_dev_sum_raw(rs.take(i as int), m),
            0 <= acc <= (i as int) * (MAX_RAW as int),
        decreases n - i,
    {
        let d: i128 = values[i].raw as i128 - mean.raw as i128;
        proof {
            assert(rs[i as int] == values@[i as int].raw as int);
            lemma_mul_abs_bound(d as int, d as int, 2 * MAX_RAW as int, 2 * MAX_RAW as int);
            lemma_tdiv_bounds((d * d) as int, SCALE as int);
            assert(d * d >= 0) by (nonlinear_arith);
        }
        let p: i128 = d * d;
        let q: i128 = match p.checked_div(SCALE as i128) {
            Some(q) => q,
            None => {
                proof {
                    assert(false);
                }
                0
            },
        };
        proof {
            assert(rs.take(i + 1).drop_last() =~= rs.take(i as int));
            assert(rs.take(i + 1).last() == rs[i as int]);
        }
        if q > MAX_RAW as i128 {
            proof {
                assert(q == tdiv((rs[i as int] - m) * (rs[i as int] - m), SCALE as int));
                assert(sq_dev_raw(rs[i as int], m) is None);
                assert(sq_dev_sum_raw(rs.take(i + 1), m) is None);
                lemma_sq_dev_sum_none_extends(rs, m, i + 1);
                assert(sq_dev_sum_raw(rs, m) is None);
                assert(m == mean_raw(rs));
                assert(variance_raw(rs) is None);
            }
            return None;
        }
        proof {
            assert((i as int) * (MAX_RAW as int) + MAX_RAW as int == (i + 1) * (MAX_RAW as int))
                by (nonlinear_arith);
        }
        acc = acc + q;
        i = i + 1;
    }
    proof {
        assert(rs.take(n as int) =~= rs);
        lemma_tdiv_quotient_bound(acc as int, n as int, MAX_RAW as int);
        lemma_tdiv_bounds(acc as int, n as int);
    }
    let v: i128 = match acc.checked_div(n as i128) {
        Some(v) => v,
        None => {
            proof {
                assert(false);
            }
            0
        },
    };
    proof {
        assert(variance_raw(rs) == Some(tdiv(acc as int, n as int)));
    }
    Some(Fixed { raw: v as i64 })
}

/// Standard deviation: the square root of the population variance.
pub fn get_standard_deviation(values: &Vec<Fixed>) -> (r: Option<Fixed>)
    requires
        values@.len() > 0,
        all_valid(values@),
    ensures
        match r {
            Some(f) => {
                &&& f.valid()
                &&& f.raw >= 0
                &&& match variance_raw(raws(values@)) {
                    Some(v) => 0 <= v <= MAX_RAW as int && is_sqrt(f.raw as int, v * (SCALE as int)),
                    None => false,
                }
            },
            None => variance_raw(raws(values@)) is None,
        },
{
    match get_variance(values) {
        Some(v) => Some(v.sqrt()),
        None => None,
    }
}

/// The standardization statistics of a feature column: derived once from the
/// training dataset, then applied unchanged at training and inference time.
#[derive(Clone, Copy, Debug, PartialEq, Eq, Structural)]
pub struct Scaler {
    pub mean: Fixed,
    pub std_dev: Fixed,
}

impl Scaler {
    /// Well-formed statistics: a strictly positive standard deviation.
    pub open spec fn wf(self) -> bool {
        self.mean.valid() && self.std_dev.valid() && self.std_dev.raw > 0
    }

    /// The statistics this scaler must hold for the feature column `s`.
    pub open spec fn fits(self, s: Seq<int>) -> bool {
        &&& self.mean.raw == mean_raw(s)
        &&& match variance_raw(s) {
            Some(v) => is_sqrt(self.std_dev.raw as int, v * (SCALE as int)),
            None => false,
        }
    }

    /// Derives the statistics of a record list's feature column.
    ///
    /// Fails on an empty list, on a constant feature column (standard
    /// deviation zero), and when a squared deviation leaves the representable
    /// range.
    pub fn from_records(records: &Vec<Record>) -> (r: Result<Scaler, TrainError>)
        requires
            forall|i: int| 0 <= i < records@.len() ==> (#[trigger] records@[i]).valid(),
        ensures
            match r {
                Ok(sc) => {
                    &&& records@.len() > 0
                    &&& sc.wf()
                    &&& sc.fits(records@.map_values(|rec: Record| rec.km.raw as int))
                },
                Err(e) => {
                    &&& {
                        ||| e == TrainError::Data(DataError::Empty) && records@.len() == 0
                        ||| e == TrainError::Data(DataError::OutOfRange) && records@.len() > 0
                            && variance_raw(
                            records@.map_values(|rec: Record| rec.km.raw as int),
                        ) is None
                        ||| e == TrainError::Data(DataError::ZeroVariance) && records@.len() > 0
                            && variance_raw(
                            records@.map_values(|rec: Record| rec.km.raw as int),
                        ) == Some(0int)
                    }
                },
            },
    {
        if records.len() == 0 {
            return Err(TrainError::Data(DataError::Empty));
        }
        let mut kms: Vec<Fixed> = Vec::new();
        let mut i: usize = 0;
        while i < records.len()
            invariant
                forall|j: int| 0 <= j < records@.len() ==> (#[trigger] records@[j]).valid(),
                i <= records@.len(),
                kms@.len() == i,
                forall|j: int| 0 <= j < i ==> kms@[j] == (#[trigger] records@[j]).km,
            decreases records@.len() - i,
        {
            kms.push(records[i].km);
            i = i + 1;
        }
        proof {
            assert(raws(kms@) =~= records@.map_values(|rec: Record| rec.km.raw as int));
            assert forall|j: int| 0 <= j < kms@.len() implies (#[trigger] kms@[j]).valid() by {
                assert(records@[j].valid());
            }
        }
        let mean = get_mean(&kms);
        let std_dev = match get_standard_deviation(&kms) {
            Some(sd) => sd,
            None => {
                return Err(TrainError::Data(DataError::OutOfRange));
            },
        };
        if std_dev.raw == 0 {
            proof {
                let v = variance_raw(raws(kms@)).unwrap();
                assert(is_sqrt(0, v * (SCALE as int)));
                assert(v >= 0);
                assert((0 + 1) * (0 + 1) == 1) by (nonlinear_arith);
                assert(v * (SCALE as int) < 1);
                if v != 0 {
                    assert(v >= 1);
                    assert(v * (SCALE as int) >= SCALE as int) by (nonlinear_arith)
                        requires
                            v >= 1,
                    ;
                    assert(false);
                }
                assert(v == 0);
                assert(variance_raw(records@.map_values(|rec: Record| rec.km.raw as int)) == Some(
                0int));
            }
            return Err(TrainError::Data(DataError::ZeroVariance));
        }
        Ok(Scaler { mean, std_dev })
    }

    /// The z-score transform: `(value - mean) / std_dev`.  Pure; `None` when
    /// the result leaves the representable range.
    pub fn standardize(&self, value: Fixed) -> (r: Option<Fixed>)
        requires
            self.wf(),
            value.valid(),
        ensures
            r == lift(standardize_raw(value.raw as int, self.mean.raw as int, self.std_dev.raw as int)),
    {
        let d: i128 = value.raw as i128 - self.mean.raw as i128;
        proof {
            lemma_mul_abs_bound(d as int, SCALE as int, 2 * MAX_RAW as int, SCALE as int);
            lemma_tdiv_bounds((d * (SCALE as i128)) as int, self.std_dev.raw as int);
        }
        let n: i128 = d * (SCALE as i128);
        let q: i128 = match n.checked_div(self.std_dev.raw as i128) {
            Some(q) => q,
            None => {
                proof {
                    assert(false);
                }
                0
            },
        };
        if -(MAX_RAW as i128) <= q && q <= MAX_RAW as i128 {
            Some(Fixed { raw: q as i64 })
        } else {
            None
        }
    }
}

/// Law: the standardization of the mean itself is exactly zero.
pub proof fn lemma_standardize_mean_zero(m: int, sd: int)
    requires
        sd >= 1,
    ensures
        standardize_raw(m, m, sd) == Some(0int),
{
    assert((m - m) * (SCALE as int) == 0) by (nonlinear_arith);
}

/// Law: standardization is linear in the value.  On values whose scaled
/// deviation from the mean is an exact multiple of the standard deviation
/// (so truncation drops nothing), the transform of a combined deviation is
/// the sum of the transforms.
pub proof fn lemma_standardize_linear(m: int, sd: int, a: int, b: int, ka: int, kb: int)
    requires
        sd >= 1,
        (a - m) * (SCALE as int) == ka * sd,
        (b - m) * (SCALE as int) == kb * sd,
    ensures
        standardize_raw(a, m, sd) == chk(ka),
        standardize_raw(b, m, sd) == chk(kb),
        standardize_raw(a + b - m, m, sd) == chk(ka + kb),
{
    lemma_tdiv_exact(ka, sd);
    lemma_tdiv_exact(kb, sd);
    lemma_tdiv_exact(ka + kb, sd);
    assert(((a + b - m) - m) * (SCALE as int) == (a - m) * (SCALE as int) + (b - m) * (
    SCALE as int)) by (nonlinear_arith);
    assert((ka + kb) * sd == ka * sd + kb * sd) by (nonlinear_arith);
}

} // verus!
