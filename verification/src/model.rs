//! The linear hypothesis and its evaluation metrics.

use vstd::prelude::*;

use crate::data::{Dataset, Weights};
use crate::error::{DataError, TrainError};
use crate::fixed::{abs_of, chk, lift, tdiv, Fixed, MAX_RAW, SCALE};
use crate::fixed::{lemma_mul_abs_bound, lemma_tdiv_bounds, lemma_tdiv_exact,
    lemma_tdiv_quotient_bound};
use crate::scaler::{get_mean, mean_raw, raws, sq_dev_sum_raw, standardize_raw, Scaler};

verus! {

/// The linear hypothesis on a standardized feature value:
/// `theta1 * x + theta0`, with one truncation at the product.
pub open spec fn predict_raw(x: int, t0: int, t1: int) -> Option<int> {
    chk(tdiv(t1 * x, SCALE as int) + t0)
}

/// Standardize a raw feature value, then apply the hypothesis.
pub open spec fn predict_std_raw(km: int, m: int, sd: int, t0: int, t1: int) -> Option<int> {
    match standardize_raw(km, m, sd) {
        None => None,
        Some(x) => predict_raw(x, t0, t1),
    }
}

/// Absolute prediction error of one record.
pub open spec fn abs_err_raw(km: int, price: int, m: int, sd: int, t0: int, t1: int) -> Option<
    int,
> {
    match predict_std_raw(km, m, sd, t0, t1) {
        None => None,
        Some(p) => chk(abs_of(p - price)),
    }
}

/// Sum of the absolute prediction errors over a dataset.
pub open spec fn abs_err_sum_raw(
    kms: Seq<int>,
    prices: Seq<int>,
    m: int,
    sd: int,
    t0: int,
    t1: int,
) -> Option<int>
    recommends
        kms.len() == prices.len(),
    decreases kms.len(),
{
    if kms.len() == 0 {
        Some(0)
    } else {
        match abs_err_sum_raw(kms.drop_last(), prices.drop_last(), m, sd, t0, t1) {
            None => None,
            Some(acc) => match abs_err_raw(kms.last(), prices.last(), m, sd, t0, t1) {
                None => None,
                Some(e) => Some(acc + e),
            },
        }
    }
}

/// The training diagnostic metric: the mean of the absolute prediction
/// errors.  (It goes by the name of the mean squared error although no
/// squaring is involved; the name is part of the on-record behaviour and is
/// kept.)
pub open spec fn mae_raw(
    kms: Seq<int>,
    prices: Seq<int>,
    m: int,
    sd: int,
    t0: int,
    t1: int,
) -> Option<int>
    recommends
        kms.len() == prices.len(),
        kms.len() > 0,
{
    match abs_err_sum_raw(kms, prices, m, sd, t0, t1) {
        None => None,
        Some(t) => Some(tdiv(t, kms.len() as int)),
    }
}

/// Squared residual of one record, at fixed-point precision.
pub open spec fn res_sq_raw(km: int, price: int, m: int, sd: int, t0: int, t1: int) -> Option<
    int,
> {
    match predict_std_raw(km, m, sd, t0, t1) {
        None => None,
        Some(p) => chk(tdiv((price - p) * (price - p), SCALE as int)),
    }
}

/// Sum of the squared residuals over a dataset.
pub open spec fn res_sq_sum_raw(
    kms: Seq<int>,
    prices: Seq<int>,
    m: int,
    sd: int,
    t0: int,
    t1: int,
) -> Option<int>
    recommends
        kms.len() == prices.len(),
    decreases kms.len(),
{
    if kms.len() == 0 {
        Some(0)
    } else {
        match res_sq_sum_raw(kms.drop_last(), prices.drop_last(), m, sd, t0, t1) {
            None => None,
            Some(acc) => match res_sq_raw(kms.last(), prices.last(), m, sd, t0, t1) {
                None => None,
                Some(e) => Some(acc + e),
            },
        }
    }
}

/// Total and residual sums of squares, when both are representable.
pub open spec fn r_squared_parts(
    kms: Seq<int>,
    prices: Seq<int>,
    m: int,
    sd: int,
    t0: int,
    t1: int,
) -> Option<(int, int)>
    recommends
        kms.len() == prices.len(),
        prices.len() > 0,
{
    match sq_dev_sum_raw(prices, mean_raw(prices)) {
        None => None,
        Some(st) => match chk(st) {
            None => None,
            Some(sstot) => match res_sq_sum_raw(kms, prices, m, sd, t0, t1) {
                None => None,
                Some(sr) => match chk(sr) {
                    None => None,
                    Some(ssres) => Some((sstot, ssres)),
                },
            },
        },
    }
}

/// The coefficient of determination from its two sums of squares, clamped to
/// a minimum of zero.
pub open spec fn r2_from(sstot: int, ssres: int) -> int
    recommends
        sstot >= 1,
{
    let ratio = tdiv(ssres * (SCALE as int), sstot);
    if (SCALE as int) - ratio < 0 {
        0
    } else {
        (SCALE as int) - ratio
    }
}

/// The linear hypothesis: `theta1 * km + theta0` over a standardized feature
/// value; `None` when the result leaves the representable range.
pub fn predict(km: Fixed, theta0: Fixed, theta1: Fixed) -> (r: Option<Fixed>)
    requires
        km.valid(),
        theta0.valid(),
        theta1.valid(),
    ensures
        r == lift(predict_raw(km.raw as int, theta0.raw as int, theta1.raw as int)),
{
    proof {
        lemma_mul_abs_bound(theta1.raw as int, km.raw as int, MAX_RAW as int, MAX_RAW as int);
    }
    let p: i128 = (theta1.raw as i128) * (km.raw as i128);
    proof {
        lemma_tdiv_bounds(p as int, SCALE as int);
    }
    let q: i128 = match p.checked_div(SCALE as i128) {
        Some(q) => q,
        None => {
            proof {
                assert(false);
            }
            0
        },
    };
    let s: i128 = q + theta0.raw as i128;
    if -(MAX_RAW as i128) <= s && s <= MAX_RAW as i128 {
        Some(Fixed { raw: s as i64 })
    } else {
        None
    }
}

/// The hypothesis under its inference-time name.
pub fn predict_price(km: Fixed, theta0: Fixed, theta1: Fixed) -> (r: Option<Fixed>)
    requires
        km.valid(),
        theta0.valid(),
        theta1.valid(),
    ensures
        r == lift(predict_raw(km.raw as int, theta0.raw as int, theta1.raw as int)),
{
    predict(km, theta0, theta1)
}

/// Once a prefix of the absolute-error sum is `None`, the whole sum is.
proof fn lemma_abs_err_sum_none_extends(
    kms: Seq<int>,
    prices: Seq<int>,
    m: int,
    sd: int,
    t0: int,
    t1: int,
    j: int,
)
    requires
        kms.len() == prices.len(),
        0 <= j <= kms.len(),
        abs_err_sum_raw(kms.take(j), prices.take(j), m, sd, t0, t1) is None,
    ensures
        abs_err_sum_raw(kms, prices, m, sd, t0, t1) is None,
    decreases kms.len() - j,
{
    if j == kms.len() {
        assert(kms.take(j) =~= kms);
        assert(prices.take(j) =~= prices);
    } else {
        assert(kms.take(j + 1).drop_last() =~= kms.take(j));
        assert(prices.take(j + 1).drop_last() =~= prices.take(j));
        lemma_abs_err_sum_none_extends(kms, prices, m, sd, t0, t1, j + 1);
    }
}

/// Once a prefix of the squared-residual sum is `None`, the whole sum is.
proof fn lemma_res_sq_sum_none_extends(
    kms: Seq<int>,
    prices: Seq<int>,
    m: int,
    sd: int,
    t0: int,
    t1: int,
    j: int,
)
    requires
        kms.len() == prices.len(),
        0 <= j <= kms.len(),
        res_sq_sum_raw(kms.take(j), prices.take(j), m, sd, t0, t1) is None,
    ensures
        res_sq_sum_raw(kms, prices, m, sd, t0, t1) is None,
    decreases kms.len() - j,
{
    if j == kms.len() {
        assert(kms.take(j) =~= kms);
        assert(prices.take(j) =~= prices);
    } else {
        assert(kms.take(j + 1).drop_last() =~= kms.take(j));
        assert(prices.take(j + 1).drop_last() =~= prices.take(j));
        lemma_res_sq_sum_none_extends(kms, prices, m, sd, t0, t1, j + 1);
    }
}

/// The training diagnostic: the mean absolute prediction error over the
/// dataset, at the given statistics and coefficients.  (The name promises a
/// squared error; see [`mae_raw`] for why none is computed.)
pub fn calculate_mean_squared_error(
    dataset: &Dataset,
    scaler: &Scaler,
    theta0: Fixed,
    theta1: Fixed,
) -> (r: Result<Fixed, TrainError>)
    requires
        dataset.valid(),
        dataset.records@.len() > 0,
        scaler.wf(),
        theta0.valid(),
        theta1.valid(),
    ensures
        match r {
            Ok(f) => {
                &&& f.valid()
                &&& f.raw >= 0
                &&& mae_raw(
                    dataset.kms_spec(),
                    dataset.prices_spec(),
                    scaler.mean.raw as int,
                    scaler.std_dev.raw as int,
                    theta0.raw as int,
                    theta1.raw as int,
                ) == Some(f.raw as int)
            },
            Err(e) => e == TrainError::Data(DataError::OutOfRange) && mae_raw(
                dataset.kms_spec(),
                dataset.prices_spec(),
                scaler.mean.raw as int,
                scaler.std_dev.raw as int,
                theta0.raw as int,
                theta1.raw as int,
            ) is None,
        },
{
    let ghost kms = dataset.kms_spec();
    let ghost prices = dataset.prices_spec();
    let ghost m = scaler.mean.raw as int;
    let ghost sd = scaler.std_dev.raw as int;
    let ghost t0 = theta0.raw as int;
    let ghost t1 = theta1.raw as int;
    let n: usize = dataset.records.len();
    let mut acc: i128 = 0;
    let mut i: usize = 0;
    while i < n
        invariant
            dataset.valid(),
            scaler.wf(),
            theta0.valid(),
            theta1.valid(),
            n == dataset.records@.len(),
            kms == dataset.kms_spec(),
            prices == dataset.prices_spec(),
            m == scaler.mean.raw as int,
            sd == scaler.std_dev.raw as int,
            t0 == theta0.raw as int,
            t1 == theta1.raw as int,
            i <= n,
            Some(acc as int) == abs_err_sum_raw(kms.take(i as int), prices.take(i as int), m, sd, t0, t1),
            0 <= acc <= (i as int) * (MAX_RAW as int),
        decreases n - i,
    {
        let rec = dataset.records[i];
        proof {
            assert(kms[i as int] == rec.km.raw as int);
            assert(prices[i as int] == rec.price.raw as int);
            assert(kms.take(i + 1).drop_last() =~= kms.take(i as int));
            assert(prices.take(i + 1).drop_last() =~= prices.take(i as int));
            assert(kms.take(i + 1).last() == kms[i as int]);
            assert(prices.take(i + 1).last() == prices[i as int]);
        }
        let std_km = match scaler.standardize(rec.km) {
            Some(f) => f,
            None => {
                proof {
                    lemma_abs_err_sum_none_extends(kms, prices, m, sd, t0, t1, i + 1);
                }
                return Err(TrainError::Data(DataError::OutOfRange));
            },
        };
        let pred = match predict(std_km, theta0, theta1) {
            Some(f) => f,
            None => {
                proof {
                    lemma_abs_err_sum_none_extends(kms, prices, m, sd, t0, t1, i + 1);
                }
                return Err(TrainError::Data(DataError::OutOfRange));
            },
        };
        let e0: i128 = pred.raw as i128 - rec.price.raw as i128;
        let e: i128 = if e0 >= 0 {
            e0
        } else {
            -e0
        };
        if e > MAX_RAW as i128 {
            proof {
                lemma_abs_err_sum_none_extends(kms, prices, m, sd, t0, t1, i + 1);
            }
            return Err(TrainError::Data(DataError::OutOfRange));
        }
        proof {
            assert((i as int) * (MAX_RAW as int) + MAX_RAW as int == (i + 1) * (MAX_RAW as int))
                by (nonlinear_arith);
        }
        acc = acc + e;
        i = i + 1;
    }
    proof {
        assert(kms.take(n as int) =~= kms);
        assert(prices.take(n as int) =~= prices);
        lemma_tdiv_quotient_bound(acc as int, n as int, MAX_RAW as int);
        lemma_tdiv_bounds(acc as int, n as int);
    }
    let q: i128 = match acc.checked_div(n as i128) {
        Some(q) => q,
        None => {
            proof {
                assert(false);
            }
            0
        },
    };
    Ok(Fixed { raw: q as i64 })
}

/// The model's precision: the coefficient of determination of the hypothesis
/// over the dataset, `1 - SS_res / SS_tot`, clamped to a minimum of zero.
///
/// Fails with a range error when a sum of squares is not representable, and
/// with a zero-variance error when the targets are all equal to their mean,
/// which leaves the coefficient undefined.
pub fn calculate_precision(dataset: &Dataset, scaler: &Scaler, weights: &Weights) -> (r: Result<
    Fixed,
    TrainError,
>)
    requires
        dataset.valid(),
        dataset.records@.len() > 0,
        scaler.wf(),
        weights.valid(),
    ensures
        match r_squared_parts(
            dataset.kms_spec(),
            dataset.prices_spec(),
            scaler.mean.raw as int,
            scaler.std_dev.raw as int,
            weights.theta0.raw as int,
            weights.theta1.raw as int,
        ) {
            None => r == Err::<Fixed, TrainError>(TrainError::Data(DataError::OutOfRange)),
            Some((sstot, ssres)) => if sstot == 0 {
                r == Err::<Fixed, TrainError>(TrainError::Data(DataError::ZeroVariance))
            } else {
                &&& 0 <= r2_from(sstot, ssres) <= SCALE as int
                &&& r == Ok::<Fixed, TrainError>(
                    Fixed { raw: r2_from(sstot, ssres) as i64 },
                )
            },
        },
{
    let ghost kms = dataset.kms_spec();
    let ghost prices = dataset.prices_spec();
    let ghost m = scaler.mean.raw as int;
    let ghost sd = scaler.std_dev.raw as int;
    let ghost t0 = weights.theta0.raw as int;
    let ghost t1 = weights.theta1.raw as int;
    let n: usize = dataset.records.len();

    let mut price_col: Vec<Fixed> = Vec::new();
    let mut i: usize = 0;
    while i < n
        invariant
            dataset.valid(),
            n == dataset.records@.len(),
            i <= n,
            price_col@.len() == i,
            forall|j: int| 0 <= j < i ==> price_col@[j] == (#[trigger] dataset.records@[j]).price,
        decreases n - i,
    {
        price_col.push(dataset.records[i].price);
        i = i + 1;
    }
    proof {
        assert(raws(price_col@) =~= prices);
        assert forall|j: int| 0 <= j < price_col@.len() implies (#[trigger] price_col@[j]).valid()
        by {
            assert(dataset.records@[j].valid());
        }
    }
    let ybar = get_mean(&price_col);
    let ghost yb = ybar.raw as int;

    // Total sum of squares around the target mean.
    let mut tot: i128 = 0;
    let mut i: usize = 0;
    while i < n
        invariant
            dataset.valid(),
            ybar.valid(),
            n == dataset.records@.len(),
            prices == dataset.prices_spec(),
            yb == ybar.raw as int,
            yb == mean_raw(prices),
            i <= n,
            Some(tot as int) == sq_dev_sum_raw(prices.take(i as int), yb),
            0 <= tot <= (i as int) * (MAX_RAW as int),
        decreases n - i,
    {
        let d: i128 = dataset.records[i].price.raw as i128 - ybar.raw as i128;
        proof {
            assert(prices[i as int] == dataset.records@[i as int].price.raw as int);
            assert(dataset.records@[i as int].valid());
            lemma_mul_abs_bound(d as int, d as int, 2 * MAX_RAW as int, 2 * MAX_RAW as int);
            lemma_tdiv_bounds((d * d) as int, SCALE as int);
            assert(d * d >= 0) by (nonlinear_arith);
            assert(prices.take(i + 1).drop_last() =~= prices.take(i as int));
            assert(prices.take(i + 1).last() == prices[i as int]);
        }
        let p: i128 = d * d;
        let q: i128 = match p.checked_div(SCALE as i128) {
            Some(q) => q,
            None => {
                proof {
                    assert(false);
                }
                0
            },
        };
        if q > MAX_RAW as i128 {
            proof {
                crate::scaler::lemma_sq_dev_sum_none_extends(prices, yb, i + 1);
            }
            return Err(TrainError::Data(DataError::OutOfRange));
        }
        proof {
            assert((i as int) * (MAX_RAW as int) + MAX_RAW as int == (i + 1) * (MAX_RAW as int))
                by (nonlinear_arith);
        }
        tot = tot + q;
        i = i + 1;
    }
    proof {
        assert(prices.take(n as int) =~= prices);
    }
    if tot > MAX_RAW as i128 {
        return Err(TrainError::Data(DataError::OutOfRange));
    }

    // Residual sum of squares of the hypothesis.
    let mut res: i128 = 0;
    let mut i: usize = 0;
    while i < n
        invariant
            dataset.valid(),
            scaler.wf(),
            weights.valid(),
            n == dataset.records@.len(),
            kms == dataset.kms_spec(),
            prices == dataset.prices_spec(),
            m == scaler.mean.raw as int,
            sd == scaler.std_dev.raw as int,
            t0 == weights.theta0.raw as int,
            t1 == weights.theta1.raw as int,
            i <= n,
            Some(res as int) == res_sq_sum_raw(kms.take(i as int), prices.take(i as int), m, sd, t0, t1),
            0 <= res <= (i as int) * (MAX_RAW as int),
        decreases n - i,
    {
        let rec = dataset.records[i];
        proof {
            assert(kms[i as int] == rec.km.raw as int);
            assert(prices[i as int] == rec.price.raw as int);
            assert(kms.take(i + 1).drop_last() =~= kms.take(i as int));
            assert(prices.take(i + 1).drop_last() =~= prices.take(i as int));
            assert(kms.take(i + 1).last() == kms[i as int]);
            assert(prices.take(i + 1).last() == prices[i as int]);
        }
        let std_km = match scaler.standardize(rec.km) {
            Some(f) => f,
            None => {
                proof {
                    lemma_res_sq_sum_none_extends(kms, prices, m, sd, t0, t1, i + 1);
                }
                return Err(TrainError::Data(DataError::OutOfRange));
            },
        };
        let pred = match predict(std_km, weights.theta0, weights.theta1) {
            Some(f) => f,
            None => {
                proof {
                    lemma_res_sq_sum_none_extends(kms, prices, m, sd, t0, t1, i + 1);
                }
                return Err(TrainError::Data(DataError::OutOfRange));
            },
        };
        let d: i128 = rec.price.raw as i128 - pred.raw as i128;
        proof {
            lemma_mul_abs_bound(d as int, d as int, 2 * MAX_RAW as int, 2 * MAX_RAW as int);
            lemma_tdiv_bounds((d * d) as int, SCALE as int);
            assert(d * d >= 0) by (nonlinear_arith);
        }
        let p: i128 = d * d;
        let q: i128 = match p.checked_div(SCALE as i128) {
            Some(q) => q,
            None => {
                proof {
                    assert(false);
                }
                0
            },
        };
        if q > MAX_RAW as i128 {
            proof {
                lemma_res_sq_sum_none_extends(kms, prices, m, sd, t0, t1, i + 1);
            }
            return Err(TrainError::Data(DataError::OutOfRange));
        }
        proof {
            assert((i as int) * (MAX_RAW as int) + MAX_RAW as int == (i + 1) * (MAX_RAW as int))
                by (nonlinear_arith);
        }
        res = res + q;
        i = i + 1;
    }
    proof {
        assert(kms.take(n as int) =~= kms);
        assert(prices.take(n as int) =~= prices);
    }
    if res > MAX_RAW as i128 {
        return Err(TrainError::Data(DataError::OutOfRange));
    }

    if tot == 0 {
        return Err(TrainError::Data(DataError::ZeroVariance));
    }
    proof {
        lemma_mul_abs_bound(res as int, SCALE as int, MAX_RAW as int, SCALE as int);
        lemma_tdiv_bounds((res * (SCALE as i128)) as int, tot as int);
    }
    let num: i128 = res * (SCALE as i128);
    let ratio: i128 = match num.checked_div(tot) {
        Some(q) => q,
        None => {
            proof {
                assert(false);
            }
            0
        },
    };
    let r2v: i128 = (SCALE as i128) - ratio;
    if r2v < 0 {
        Ok(Fixed { raw: 0 })
    } else {
        Ok(Fixed { raw: r2v as i64 })
    }
}

/// The share of a target explained by its prediction, as a percentage:
/// `100 * (1 - |price - prediction| / price)`.  Undefined for a zero target.
pub open spec fn accuracy_raw(price: int, p: int) -> Option<int> {
    if price == 0 {
        None
    } else {
        match chk(abs_of(price - p)) {
            None => None,
            Some(d) => match chk(tdiv(d * (SCALE as int), price)) {
                None => None,
                Some(ratio) => chk(((SCALE as int) - ratio) * 100),
            },
        }
    }
}

/// One comparison row holds the right four exact values for record `i`.
pub open spec fn comparison_row_ok(
    row: Seq<Fixed>,
    km: int,
    price: int,
    m: int,
    sd: int,
    t0: int,
    t1: int,
) -> bool {
    &&& row.len() == 4
    &&& row[0].raw == km
    &&& row[1].raw == price
    &&& match predict_std_raw(km, m, sd, t0, t1) {
        Some(p) => row[2].raw == p && Some(row[3].raw as int) == accuracy_raw(price, p),
        None => false,
    }
}

/// For each record: its feature, its target, the model's prediction, and the
/// prediction's accuracy as a percentage of the target.  The values are
/// exact; rounding for display is the presentation layer's business.
pub fn prediction_compare(dataset: &Dataset, scaler: &Scaler, weights: &Weights) -> (r: Result<
    Vec<Vec<Fixed>>,
    TrainError,
>)
    requires
        dataset.valid(),
        scaler.wf(),
        weights.valid(),
    ensures
        match r {
            Ok(rows) => {
                &&& rows@.len() == dataset.records@.len()
                &&& forall|i: int|
                    0 <= i < rows@.len() ==> comparison_row_ok(
                        (#[trigger] rows@[i])@,
                        dataset.kms_spec()[i],
                        dataset.prices_spec()[i],
                        scaler.mean.raw as int,
                        scaler.std_dev.raw as int,
                        weights.theta0.raw as int,
                        weights.theta1.raw as int,
                    )
            },
            Err(e) => e == TrainError::Data(DataError::OutOfRange) && exists|i: int|
                0 <= i < dataset.records@.len() && match predict_std_raw(
                    #[trigger] dataset.kms_spec()[i],
                    scaler.mean.raw as int,
                    scaler.std_dev.raw as int,
                    weights.theta0.raw as int,
                    weights.theta1.raw as int,
                ) {
                    Some(p) => accuracy_raw(dataset.prices_spec()[i], p) is None,
                    None => true,
                },
        },
{
    let ghost kms = dataset.kms_spec();
    let ghost prices = dataset.prices_spec();
    let ghost m = scaler.mean.raw as int;
    let ghost sd = scaler.std_dev.raw as int;
    let ghost t0 = weights.theta0.raw as int;
    let ghost t1 = weights.theta1.raw as int;
    let n: usize = dataset.records.len();
    let mut rows: Vec<Vec<Fixed>> = Vec::new();
    let mut i: usize = 0;
    while i < n
        invariant
            dataset.valid(),
            scaler.wf(),
            weights.valid(),
            n == dataset.records@.len(),
            kms == dataset.kms_spec(),
            prices == dataset.prices_spec(),
            m == scaler.mean.raw as int,
            sd == scaler.std_dev.raw as int,
            t0 == weights.theta0.raw as int,
            t1 == weights.theta1.raw as int,
            i <= n,
            rows@.len() == i,
            forall|j: int|
                0 <= j < i ==> comparison_row_ok((#[trigger] rows@[j])@, kms[j], prices[j], m, sd, t0, t1),
        decreases n - i,
    {
        let rec = dataset.records[i];
        proof {
            assert(kms[i as int] == rec.km.raw as int);
            assert(prices[i as int] == rec.price.raw as int);
        }
        let std_km = match scaler.standardize(rec.km) {
            Some(f) => f,
            None => {
                return Err(TrainError::Data(DataError::OutOfRange));
            },
        };
        let pred = match predict(std_km, weights.theta0, weights.theta1) {
            Some(f) => f,
            None => {
                return Err(TrainError::Data(DataError::OutOfRange));
            },
        };
        if rec.price.raw == 0 {
            return Err(TrainError::Data(DataError::OutOfRange));
        }
        let d0: i128 = rec.price.raw as i128 - pred.raw as i128;
        let d: i128 = if d0 >= 0 {
            d0
        } else {
            -d0
        };
        if d > MAX_RAW as i128 {
            return Err(TrainError::Data(DataError::OutOfRange));
        }
        proof {
            lemma_mul_abs_bound(d as int, SCALE as int, MAX_RAW as int, SCALE as int);
            lemma_tdiv_bounds((d * (SCALE as i128)) as int, rec.price.raw as int);
        }
        let num: i128 = d * (SCALE as i128);
        let ratio: i128 = match num.checked_div(rec.price.raw as i128) {
            Some(q) => q,
            None => {
                proof {
                    assert(false);
                }
                0
            },
        };
        if !(-(MAX_RAW as i128) <= ratio && ratio <= MAX_RAW as i128) {
            return Err(TrainError::Data(DataError::OutOfRange));
        }
        let acc0: i128 = ((SCALE as i128) - ratio) * 100;
        if !(-(MAX_RAW as i128) <= acc0 && acc0 <= MAX_RAW as i128) {
            return Err(TrainError::Data(DataError::OutOfRange));
        }
        let row: Vec<Fixed> = vec![rec.km, rec.price, pred, Fixed { raw: acc0 as i64 }];
        rows.push(row);
        i = i + 1;
    }
    Ok(rows)
}

/// Law: the hypothesis is affine in the standardized feature.  On features
/// whose product with the slope is an exact multiple of the scale (so
/// truncation drops nothing), the prediction of a sum splits into the sum of
/// the slope contributions, and the difference of two predictions is exactly
/// the slope contribution of the difference.
pub proof fn lemma_predict_affine(t0: int, t1: int, a: int, b: int, ka: int, kb: int)
    requires
        t1 * a == ka * (SCALE as int),
        t1 * b == kb * (SCALE as int),
    ensures
        predict_raw(a, t0, t1) == chk(ka + t0),
        predict_raw(a + b, t0, t1) == chk(ka + kb + t0),
        predict_raw(a + b, t0, t1) is Some && predict_raw(a, t0, t1) is Some
            ==> predict_raw(a + b, t0, t1).unwrap() - predict_raw(a, t0, t1).unwrap() == tdiv(
            t1 * b,
            SCALE as int,
        ),
{
    lemma_tdiv_exact(ka, SCALE as int);
    lemma_tdiv_exact(kb, SCALE as int);
    lemma_tdiv_exact(ka + kb, SCALE as int);
    assert(t1 * (a + b) == t1 * a + t1 * b) by (nonlinear_arith);
    assert((ka + kb) * (SCALE as int) == ka * (SCALE as int) + kb * (SCALE as int))
        by (nonlinear_arith);
}

/// Law: when every prediction matches its target exactly, the residual sum
/// of squares is zero.
pub proof fn lemma_res_sq_sum_zero_when_exact(
    kms: Seq<int>,
    prices: Seq<int>,
    m: int,
    sd: int,
    t0: int,
    t1: int,
)
    requires
        kms.len() == prices.len(),
        forall|i: int|
            0 <= i < kms.len() ==> predict_std_raw(#[trigger] kms[i], m, sd, t0, t1) == Some(
                prices[i],
            ),
    ensures
        res_sq_sum_raw(kms, prices, m, sd, t0, t1) == Some(0int),
    decreases kms.len(),
{
    if kms.len() > 0 {
        lemma_res_sq_sum_zero_when_exact(kms.drop_last(), prices.drop_last(), m, sd, t0, t1);
        let km = kms.last();
        let price = prices.last();
        assert(predict_std_raw(km, m, sd, t0, t1) == Some(price));
        assert((price - price) * (price - price) == 0) by (nonlinear_arith);
    }
}

/// Law: the coefficient of determination is exactly one when the residual
/// sum of squares is zero.
pub proof fn lemma_r2_perfect(sstot: int)
    requires
        sstot >= 1,
    ensures
        r2_from(sstot, 0) == SCALE as int,
{
    assert(0 * (SCALE as int) == 0) by (nonlinear_arith);
}

/// Law: the coefficient of determination is clamped to zero as soon as the
/// residual sum of squares reaches the total sum of squares.
pub proof fn lemma_r2_clamped(sstot: int, ssres: int)
    requires
        sstot >= 1,
        ssres >= sstot,
    ensures
        r2_from(sstot, ssres) == 0,
{
    lemma_tdiv_exact(SCALE as int, sstot);
    assert(ssres * (SCALE as int) >= (SCALE as int) * sstot >= 0) by (nonlinear_arith)
        requires
            ssres >= sstot >= 1 && SCALE as int >= 1,
    ;
    vstd::arithmetic::div_mod::lemma_div_is_ordered(
        (SCALE as int) * sstot,
        ssres * (SCALE as int),
        sstot,
    );
}

} // verus!
