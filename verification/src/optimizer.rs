//! Batch gradient descent over the standardized feature.

use vstd::prelude::*;

use crate::data::{column_stats, Dataset, Weights};
use crate::error::{DataError, TrainError};
use crate::fixed::{chk, tdiv, Fixed, MAX_RAW, SCALE};
use crate::fixed::{lemma_mul_abs_bound, lemma_tdiv_bounds, lemma_tdiv_quotient_bound};
use crate::model::{predict, predict_raw};
use crate::scaler::{standardize_raw, variance_raw};

verus! {

/// The two gradient accumulators of one pass: the sum of the prediction
/// errors, and the sum of the error-feature products, over the whole dataset.
/// `None` as soon as an intermediate value is not representable.
pub open spec fn grad_sums_raw(
    kms: Seq<int>,
    prices: Seq<int>,
    m: int,
    sd: int,
    t0: int,
    t1: int,
) -> Option<(int, int)>
    recommends
        kms.len() == prices.len(),
    decreases kms.len(),
{
    if kms.len() == 0 {
        Some((0, 0))
    } else {
        match grad_sums_raw(kms.drop_last(), prices.drop_last(), m, sd, t0, t1) {
            None => None,
            Some((s0, s1)) => match standardize_raw(kms.last(), m, sd) {
                None => None,
                Some(x) => match predict_raw(x, t0, t1) {
                    None => None,
                    Some(p) => match chk(p - prices.last()) {
                        None => None,
                        Some(e) => match chk(tdiv(e * x, SCALE as int)) {
                            None => None,
                            Some(ex) => Some((s0 + e, s1 + ex)),
                        },
                    },
                },
            },
        }
    }
}

/// One full-batch pass: both gradients are formed from the same pre-update
/// coefficients, then both coefficients step simultaneously by
/// `learning_rate * mean(gradient)`.
pub open spec fn gd_pass_raw(
    kms: Seq<int>,
    prices: Seq<int>,
    m: int,
    sd: int,
    lr: int,
    t0: int,
    t1: int,
) -> Option<(int, int)>
    recommends
        kms.len() == prices.len(),
        kms.len() > 0,
{
    match grad_sums_raw(kms, prices, m, sd, t0, t1) {
        None => None,
        Some((s0, s1)) => {
            let step0 = tdiv(lr * tdiv(s0, kms.len() as int), SCALE as int);
            let step1 = tdiv(lr * tdiv(s1, kms.len() as int), SCALE as int);
            match chk(t0 - step0) {
                None => None,
                Some(nt0) => match chk(t1 - step1) {
                    None => None,
                    Some(nt1) => Some((nt0, nt1)),
                },
            }
        },
    }
}

/// `iterations` passes of batch gradient descent from the given
/// coefficients.  No convergence check, no early stopping.
pub open spec fn gd_raw(
    kms: Seq<int>,
    prices: Seq<int>,
    m: int,
    sd: int,
    lr: int,
    t0: int,
    t1: int,
    iterations: nat,
) -> Option<(int, int)>
    recommends
        kms.len() == prices.len(),
        kms.len() > 0,
    decreases iterations,
{
    if iterations == 0 {
        Some((t0, t1))
    } else {
        match gd_raw(kms, prices, m, sd, lr, t0, t1, (iterations - 1) as nat) {
            None => None,
            Some((a, b)) => gd_pass_raw(kms, prices, m, sd, lr, a, b),
        }
    }
}

/// Law: running gradient descent for zero iterations returns the input
/// coefficients unchanged.
pub proof fn lemma_gd_zero_iterations(
    kms: Seq<int>,
    prices: Seq<int>,
    m: int,
    sd: int,
    lr: int,
    t0: int,
    t1: int,
)
    ensures
        gd_raw(kms, prices, m, sd, lr, t0, t1, 0) == Some((t0, t1)),
{
}

/// Gradient descent composes: `a + b` passes are `a` passes followed by `b`
/// passes from where the first run ended.
pub proof fn lemma_gd_compose(
    kms: Seq<int>,
    prices: Seq<int>,
    m: int,
    sd: int,
    lr: int,
    t0: int,
    t1: int,
    a: nat,
    b: nat,
)
    ensures
        gd_raw(kms, prices, m, sd, lr, t0, t1, (a + b) as nat) == match gd_raw(
            kms,
            prices,
            m,
            sd,
            lr,
            t0,
            t1,
            a,
        ) {
            None => None,
            Some((x, y)) => gd_raw(kms, prices, m, sd, lr, x, y, b),
        },
    decreases b,
{
    if b > 0 {
        lemma_gd_compose(kms, prices, m, sd, lr, t0, t1, a, (b - 1) as nat);
        assert(((a + b) as nat - 1) as nat == (a + (b - 1) as nat) as nat);
    }
}

/// Once gradient descent aborts at some pass, it stays aborted.
pub proof fn lemma_gd_none_extends(
    kms: Seq<int>,
    prices: Seq<int>,
    m: int,
    sd: int,
    lr: int,
    t0: int,
    t1: int,
    k: nat,
    iterations: nat,
)
    requires
        k <= iterations,
        gd_raw(kms, prices, m, sd, lr, t0, t1, k) is None,
    ensures
        gd_raw(kms, prices, m, sd, lr, t0, t1, iterations) is None,
    decreases iterations - k,
{
    if k < iterations {
        lemma_gd_none_extends(kms, prices, m, sd, lr, t0, t1, (k + 1) as nat, iterations);
    }
}

/// Once a prefix of the gradient accumulators is `None`, the whole pass is.
proof fn lemma_grad_sums_none_extends(
    kms: Seq<int>,
    prices: Seq<int>,
    m: int,
    sd: int,
    t0: int,
    t1: int,
    j: int,
)
    requires
        kms.len() == prices.len(),
        0 <= j <= kms.len(),
        grad_sums_raw(kms.take(j), prices.take(j), m, sd, t0, t1) is None,
    ensures
        grad_sums_raw(kms, prices, m, sd, t0, t1) is None,
    decreases kms.len() - j,
{
    if j == kms.len() {
        assert(kms.take(j) =~= kms);
        assert(prices.take(j) =~= prices);
    } else {
        assert(kms.take(j + 1).drop_last() =~= kms.take(j));
        assert(prices.take(j + 1).drop_last() =~= prices.take(j));
        lemma_grad_sums_none_extends(kms, prices, m, sd, t0, t1, j + 1);
    }
}

/// Batch gradient descent: exactly `iterations` full-dataset passes starting
/// from `weights`, at the given statistics and learning rate.
///
/// Fails with a range error exactly when some intermediate value of the
/// computation is not representable.
pub fn gradient_descent(
    dataset: &Dataset,
    scaler: &crate::scaler::Scaler,
    weights: &Weights,
    learning_rate: Fixed,
    iterations: u32,
) -> (r: Result<Weights, TrainError>)
    requires
        dataset.valid(),
        dataset.records@.len() > 0,
        scaler.wf(),
        weights.valid(),
        learning_rate.valid(),
    ensures
        match r {
            Ok(w) => w.valid() && gd_raw(
                dataset.kms_spec(),
                dataset.prices_spec(),
                scaler.mean.raw as int,
                scaler.std_dev.raw as int,
                learning_rate.raw as int,
                weights.theta0.raw as int,
                weights.theta1.raw as int,
                iterations as nat,
            ) == Some((w.theta0.raw as int, w.theta1.raw as int)),
            Err(e) => e == TrainError::Data(DataError::OutOfRange) && gd_raw(
                dataset.kms_spec(),
                dataset.prices_spec(),
                scaler.mean.raw as int,
                scaler.std_dev.raw as int,
                learning_rate.raw as int,
                weights.theta0.raw as int,
                weights.theta1.raw as int,
                iterations as nat,
            ) is None,
        },
{
    let ghost kms = dataset.kms_spec();
    let ghost prices = dataset.prices_spec();
    let ghost m = scaler.mean.raw as int;
    let ghost sd = scaler.std_dev.raw as int;
    let ghost lr = learning_rate.raw as int;
    let ghost it0 = weights.theta0.raw as int;
    let ghost it1 = weights.theta1.raw as int;
    let n: usize = dataset.records.len();
    let mut theta0: Fixed = weights.theta0;
    let mut theta1: Fixed = weights.theta1;
    let mut it: u32 = 0;
    while it < iterations
        invariant
            dataset.valid(),
            scaler.wf(),
            learning_rate.valid(),
            theta0.valid(),
            theta1.valid(),
            n == dataset.records@.len(),
            n > 0,
            kms == dataset.kms_spec(),
            prices == dataset.prices_spec(),
            m == scaler.mean.raw as int,
            sd == scaler.std_dev.raw as int,
            lr == learning_rate.raw as int,
            it0 == weights.theta0.raw as int,
            it1 == weights.theta1.raw as int,
            it <= iterations,
            gd_raw(kms, prices, m, sd, lr, it0, it1, it as nat) == Some(
                (theta0.raw as int, theta1.raw as int),
            ),
        decreases iterations - it,
    {
        let mut s0: i128 = 0;
        let mut s1: i128 = 0;
        let mut j: usize = 0;
        while j < n
            invariant
                dataset.valid(),
                scaler.wf(),
                theta0.valid(),
                theta1.valid(),
                n == dataset.records@.len(),
                kms == dataset.kms_spec(),
                prices == dataset.prices_spec(),
                m == scaler.mean.raw as int,
                sd == scaler.std_dev.raw as int,
                lr == learning_rate.raw as int,
                it0 == weights.theta0.raw as int,
                it1 == weights.theta1.raw as int,
                it < iterations,
                gd_raw(kms, prices, m, sd, lr, it0, it1, it as nat) == Some(
                    (theta0.raw as int, theta1.raw as int),
                ),
                j <= n,
                Some((s0 as int, s1 as int)) == grad_sums_raw(
                    kms.take(j as int),
                    prices.take(j as int),
                    m,
                    sd,
                    theta0.raw as int,
                    theta1.raw as int,
                ),
                -(j as int) * (MAX_RAW as int) <= s0 <= (j as int) * (MAX_RAW as int),
                -(j as int) * (MAX_RAW as int) <= s1 <= (j as int) * (MAX_RAW as int),
            decreases n - j,
        {
            let rec = dataset.records[j];
            proof {
                assert(kms[j as int] == rec.km.raw as int);
                assert(prices[j as int] == rec.price.raw as int);
                assert(kms.take(j + 1).drop_last() =~= kms.take(j as int));
                assert(prices.take(j + 1).drop_last() =~= prices.take(j as int));
                assert(kms.take(j + 1).last() == kms[j as int]);
                assert(prices.take(j + 1).last() == prices[j as int]);
            }
            let std_km = match scaler.standardize(rec.km) {
                Some(f) => f,
                None => {
                    proof {
                        lemma_grad_sums_none_extends(
                            kms,
                            prices,
                            m,
                            sd,
                            theta0.raw as int,
                            theta1.raw as int,
                            j + 1,
                        );
                        lemma_gd_none_extends(
                            kms,
                            prices,
                            m,
                            sd,
                            lr,
                            it0,
                            it1,
                            (it + 1) as nat,
                            iterations as nat,
                        );
                    }
                    return Err(TrainError::Data(DataError::OutOfRange));
                },
            };
            let pred = match predict(std_km, theta0, theta1) {
                Some(f) => f,
                None => {
                    proof {
                        lemma_grad_sums_none_extends(
                            kms,
                            prices,
                            m,
                            sd,
                            theta0.raw as int,
                            theta1.raw as int,
                            j + 1,
                        );
                        lemma_gd_none_extends(
                            kms,
                            prices,
                            m,
                            sd,
                            lr,
                            it0,
                            it1,
                            (it + 1) as nat,
                            iterations as nat,
                        );
                    }
                    return Err(TrainError::Data(DataError::OutOfRange));
                },
            };
            let e: i128 = pred.raw as i128 - rec.price.raw as i128;
            if !(-(MAX_RAW as i128) <= e && e <= MAX_RAW as i128) {
                proof {
                    lemma_grad_sums_none_extends(
                        kms,
                        prices,
                        m,
                        sd,
                        theta0.raw as int,
                        theta1.raw as int,
                        j + 1,
                    );
                    lemma_gd_none_extends(
                        kms,
                        prices,
                        m,
                        sd,
                        lr,
                        it0,
                        it1,
                        (it + 1) as nat,
                        iterations as nat,
                    );
                }
                return Err(TrainError::Data(DataError::OutOfRange));
            }
            proof {
                lemma_mul_abs_bound(e as int, std_km.raw as int, MAX_RAW as int, MAX_RAW as int);
                lemma_tdiv_bounds((e * (std_km.raw as i128)) as int, SCALE as int);
            }
            let px: i128 = e * (std_km.raw as i128);
            let ex: i128 = match px.checked_div(SCALE as i128) {
                Some(q) => q,
                None => {
                    proof {
                        assert(false);
                    }
                    0
                },
            };
            if !(-(MAX_RAW as i128) <= ex && ex <= MAX_RAW as i128) {
                proof {
                    lemma_grad_sums_none_extends(
                        kms,
                        prices,
                        m,
                        sd,
                        theta0.raw as int,
                        theta1.raw as int,
                        j + 1,
                    );
                    lemma_gd_none_extends(
                        kms,
                        prices,
                        m,
                        sd,
                        lr,
                        it0,
                        it1,
                        (it + 1) as nat,
                        iterations as nat,
                    );
                }
                return Err(TrainError::Data(DataError::OutOfRange));
            }
            proof {
                assert((j as int) * (MAX_RAW as int) + MAX_RAW as int == (j + 1) * (MAX_RAW as int))
                    by (nonlinear_arith);
            }
            s0 = s0 + e;
            s1 = s1 + ex;
            j = j + 1;
        }
        proof {
            assert(kms.take(n as int) =~= kms);
            assert(prices.take(n as int) =~= prices);
            lemma_tdiv_quotient_bound(s0 as int, n as int, MAX_RAW as int);
            lemma_tdiv_quotient_bound(s1 as int, n as int, MAX_RAW as int);
            lemma_tdiv_bounds(s0 as int, n as int);
            lemma_tdiv_bounds(s1 as int, n as int);
        }
        let m0: i128 = match s0.checked_div(n as i128) {
            Some(q) => q,
            None => {
                proof {
                    assert(false);
                }
                0
            },
        };
        let m1: i128 = match s1.checked_div(n as i128) {
            Some(q) => q,
            None => {
                proof {
                    assert(false);
                }
                0
            },
        };
        proof {
            lemma_mul_abs_bound(lr, m0 as int, MAX_RAW as int, MAX_RAW as int);
            lemma_mul_abs_bound(lr, m1 as int, MAX_RAW as int, MAX_RAW as int);
            lemma_tdiv_bounds((learning_rate.raw as i128 * m0) as int, SCALE as int);
            lemma_tdiv_bounds((learning_rate.raw as i128 * m1) as int, SCALE as int);
        }
        let g0: i128 = learning_rate.raw as i128 * m0;
        let g1: i128 = learning_rate.raw as i128 * m1;
        let step0: i128 = match g0.checked_div(SCALE as i128) {
            Some(q) => q,
            None => {
                proof {
                    assert(false);
                }
                0
            },
        };
        let step1: i128 = match g1.checked_div(SCALE as i128) {
            Some(q) => q,
            None => {
                proof {
                    assert(false);
                }
                0
            },
        };
        let nt0: i128 = theta0.raw as i128 - step0;
        let nt1: i128 = theta1.raw as i128 - step1;
        if !(-(MAX_RAW as i128) <= nt0 && nt0 <= MAX_RAW as i128) || !(-(MAX_RAW as i128) <= nt1
            && nt1 <= MAX_RAW as i128) {
            proof {
                lemma_gd_none_extends(
                    kms,
                    prices,
                    m,
                    sd,
                    lr,
                    it0,
                    it1,
                    (it + 1) as nat,
                    iterations as nat,
                );
            }
            return Err(TrainError::Data(DataError::OutOfRange));
        }
        theta0 = Fixed { raw: nt0 as i64 };
        theta1 = Fixed { raw: nt1 as i64 };
        it = it + 1;
    }
    Ok(Weights { theta0, theta1 })
}

/// Trains the model: fits the scaler on the dataset's own feature column,
/// then runs `iterations` passes of gradient descent from `initial_weights`.
pub fn train(
    dataset: &Dataset,
    initial_weights: &Weights,
    learning_rate: Fixed,
    iterations: u32,
) -> (r: Result<Weights, TrainError>)
    requires
        dataset.valid(),
        initial_weights.valid(),
        learning_rate.valid(),
    ensures
        match r {
            Ok(w) => {
                &&& w.valid()
                &&& dataset.records@.len() > 0
                &&& variance_raw(dataset.kms_spec()) matches Some(v) && v > 0
                &&& gd_raw(
                    dataset.kms_spec(),
                    dataset.prices_spec(),
                    column_stats(dataset.kms_spec()).0,
                    column_stats(dataset.kms_spec()).1,
                    learning_rate.raw as int,
                    initial_weights.theta0.raw as int,
                    initial_weights.theta1.raw as int,
                    iterations as nat,
                ) == Some((w.theta0.raw as int, w.theta1.raw as int))
            },
            Err(e) => {
                ||| e == TrainError::Data(DataError::Empty) && dataset.records@.len() == 0
                ||| e == TrainError::Data(DataError::ZeroVariance) && variance_raw(
                    dataset.kms_spec(),
                ) == Some(0int)
                ||| e == TrainError::Data(DataError::OutOfRange) && (variance_raw(
                    dataset.kms_spec(),
                ) is None || gd_raw(
                    dataset.kms_spec(),
                    dataset.prices_spec(),
                    column_stats(dataset.kms_spec()).0,
                    column_stats(dataset.kms_spec()).1,
                    learning_rate.raw as int,
                    initial_weights.theta0.raw as int,
                    initial_weights.theta1.raw as int,
                    iterations as nat,
                ) is None)
            },
        },
{
    let scaler = match dataset.fit_scaler() {
        Ok(sc) => sc,
        Err(e) => {
            return Err(e);
        },
    };
    gradient_descent(dataset, &scaler, initial_weights, learning_rate, iterations)
}

} // verus!
