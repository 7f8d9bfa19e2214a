//! Batched training orchestration.
//!
//! A training run of `iterations` optimizer passes is split into `batch`
//! equal chunks of `iterations / batch` passes (integer division: a remainder
//! is dropped).  After every chunk the session reports one progress record
//! and exposes the updated coefficients, so a caller can persist them before
//! the next chunk begins.

use vstd::prelude::*;

use crate::data::{column_stats, Dataset, Weights};
use crate::error::{ConfigError, DataError, TrainError};
use crate::fixed::Fixed;
use crate::model::{calculate_mean_squared_error, mae_raw};
use crate::optimizer::{gd_raw, gradient_descent, lemma_gd_compose};
use crate::scaler::{variance_raw, Scaler};

verus! {

/// What a training run is asked to do.
#[derive(Clone, Copy, Debug, PartialEq, Eq, Structural)]
pub struct TrainingConfig {
    pub learning_rate: Fixed,
    pub iterations: u32,
    pub batch: u32,
}

impl TrainingConfig {
    /// A runnable configuration: positive learning rate, iteration count and
    /// batch count.
    pub open spec fn runnable(self) -> bool {
        &&& self.learning_rate.valid()
        &&& self.learning_rate.raw > 0
        &&& self.iterations > 0
        &&& self.batch > 0
    }
}

/// The number of chunks a run is split into: the batch count, clamped to the
/// iteration count.
pub open spec fn effective_batch(iterations: u32, batch: u32) -> int {
    if batch > iterations {
        iterations as int
    } else {
        batch as int
    }
}

/// How many optimizer passes one chunk performs.
pub open spec fn passes_per_batch(iterations: u32, batch: u32) -> int
    recommends
        iterations > 0,
        batch > 0,
{
    (iterations as int) / effective_batch(iterations, batch)
}

/// How many optimizer passes the whole run performs: the dropped remainder
/// makes this at most `iterations`.
pub open spec fn total_passes(iterations: u32, batch: u32) -> int
    recommends
        iterations > 0,
        batch > 0,
{
    effective_batch(iterations, batch) * passes_per_batch(iterations, batch)
}

/// Law: splitting `iterations` into `batch` chunks performs exactly
/// `batch * (iterations / batch)` passes, never more than `iterations`.
pub proof fn lemma_batch_split(iterations: u32, batch: u32)
    requires
        0 < batch,
        0 < iterations,
    ensures
        batch <= iterations ==> total_passes(iterations, batch) == (batch as int) * (
        (iterations as int) / (batch as int)),
        total_passes(iterations, batch) <= iterations as int,
        passes_per_batch(iterations, batch) >= 1,
{
    let eb = effective_batch(iterations, batch);
    let it = iterations as int;
    vstd::arithmetic::div_mod::lemma_remainder_lower(it, eb);
    assert(eb * (it / eb) == (it / eb) * eb) by (nonlinear_arith);
    assert(it / eb >= 1) by {
        vstd::arithmetic::div_mod::lemma_div_is_ordered(eb, it, eb);
        vstd::arithmetic::div_mod::lemma_div_by_self(eb);
    }
}

/// After `passes` optimizer passes from the given coefficients, both the
/// coefficients and the diagnostic metric at them are representable.
pub open spec fn stage_ok(
    kms: Seq<int>,
    prices: Seq<int>,
    m: int,
    sd: int,
    lr: int,
    t0: int,
    t1: int,
    passes: nat,
) -> bool {
    match gd_raw(kms, prices, m, sd, lr, t0, t1, passes) {
        Some((a, b)) => mae_raw(kms, prices, m, sd, a, b) is Some,
        None => false,
    }
}

/// Every chunk boundary of a whole run is representable: the baseline and
/// each of the `batches` chunks.
pub open spec fn run_ok(
    kms: Seq<int>,
    prices: Seq<int>,
    m: int,
    sd: int,
    lr: int,
    t0: int,
    t1: int,
    ppb: int,
    batches: int,
) -> bool {
    forall|k: int|
        0 <= k <= batches ==> #[trigger] stage_ok(kms, prices, m, sd, lr, t0, t1, (k * ppb) as nat)
}

/// The progress records of a run: record `k` carries chunk index `k`, the
/// cumulative pass count `k * ppb`, and the exact diagnostic metric at the
/// coefficients after `k` chunks.
pub open spec fn progress_ok(
    progress: Seq<ProgressRecord>,
    kms: Seq<int>,
    prices: Seq<int>,
    m: int,
    sd: int,
    lr: int,
    t0: int,
    t1: int,
    ppb: int,
) -> bool {
    forall|k: int|
        0 <= k < progress.len() ==> {
            &&& (#[trigger] progress[k]).batch_index == k
            &&& progress[k].cumulative_iterations == k * ppb
            &&& match gd_raw(kms, prices, m, sd, lr, t0, t1, (k * ppb) as nat) {
                Some((a, b)) => mae_raw(kms, prices, m, sd, a, b) == Some(
                    progress[k].metric.raw as int,
                ),
                None => false,
            }
        }
}

/// One observable step of a session: which chunk finished, how many passes
/// have run in total, and the diagnostic metric at the coefficients the chunk
/// produced.  The record with index zero is the baseline at the initial
/// coefficients, before any pass has run.
#[derive(Clone, Copy, Debug, PartialEq, Eq, Structural)]
pub struct ProgressRecord {
    pub batch_index: u32,
    pub cumulative_iterations: u32,
    pub metric: Fixed,
}

/// A training session that owns the dataset, the statistics fit on it, and
/// the evolving coefficients, and runs the optimizer chunk by chunk.
#[derive(Debug)]
pub struct TrainingSession {
    pub dataset: Dataset,
    pub scaler: Scaler,
    pub weights: Weights,
    pub learning_rate: Fixed,
    pub passes_per_batch: u32,
    pub batches: u32,
    pub batches_done: u32,
    pub adjusted: bool,
}

impl TrainingSession {
    /// The session invariant.
    pub open spec fn wf(self) -> bool {
        &&& self.dataset.valid()
        &&& self.dataset.records@.len() > 0
        &&& self.scaler.wf()
        &&& (self.scaler.mean.raw as int, self.scaler.std_dev.raw as int) == column_stats(
            self.dataset.kms_spec(),
        )
        &&& self.weights.valid()
        &&& self.learning_rate.valid()
        &&& self.learning_rate.raw > 0
        &&& self.batches >= 1
        &&& self.passes_per_batch >= 1
        &&& self.batches_done <= self.batches
        &&& (self.batches as int) * (self.passes_per_batch as int) <= u32::MAX as int
    }

    /// Opens a session: validates the configuration, clamps the batch count
    /// to the iteration count, and fits the scaler on the dataset's feature
    /// column.  No optimizer pass runs yet.
    pub fn new(dataset: Dataset, initial_weights: Weights, config: TrainingConfig) -> (r: Result<
        TrainingSession,
        TrainError,
    >)
        requires
            dataset.valid(),
            initial_weights.valid(),
            config.learning_rate.valid(),
        ensures
            match r {
                Ok(s) => {
                    &&& config.runnable()
                    &&& variance_raw(dataset.kms_spec()) matches Some(v) && v > 0
                    &&& s.wf()
                    &&& s.dataset == dataset
                    &&& s.weights == initial_weights
                    &&& s.learning_rate == config.learning_rate
                    &&& s.batches as int == effective_batch(config.iterations, config.batch)
                    &&& s.passes_per_batch as int == passes_per_batch(
                        config.iterations,
                        config.batch,
                    )
                    &&& s.batches_done == 0
                    &&& s.adjusted == (config.batch > config.iterations)
                },
                Err(e) => {
                    ||| e == TrainError::Config(ConfigError::LearningRate)
                        && config.learning_rate.raw <= 0
                    ||| e == TrainError::Config(ConfigError::Iterations)
                        && config.learning_rate.raw > 0 && config.iterations == 0
                    ||| e == TrainError::Config(ConfigError::Batch) && config.learning_rate.raw > 0
                        && config.iterations > 0 && config.batch == 0
                    ||| e == TrainError::Data(DataError::Empty) && config.runnable()
                        && dataset.records@.len() == 0
                    ||| e == TrainError::Data(DataError::OutOfRange) && config.runnable()
                        && variance_raw(dataset.kms_spec()) is None
                    ||| e == TrainError::Data(DataError::ZeroVariance) && config.runnable()
                        && variance_raw(dataset.kms_spec()) == Some(0int)
                },
            },
    {
        if config.learning_rate.raw <= 0 {
            return Err(TrainError::Config(ConfigError::LearningRate));
        }
        if config.iterations == 0 {
            return Err(TrainError::Config(ConfigError::Iterations));
        }
        if config.batch == 0 {
            return Err(TrainError::Config(ConfigError::Batch));
        }
        let scaler = match dataset.fit_scaler() {
            Ok(sc) => sc,
            Err(e) => {
                return Err(e);
            },
        };
        let adjusted = config.batch > config.iterations;
        let batches: u32 = if adjusted {
            config.iterations
        } else {
            config.batch
        };
        let ppb: u32 = config.iterations / batches;
        proof {
            lemma_batch_split(config.iterations, config.batch);
        }
        Ok(
            TrainingSession {
                dataset,
                scaler,
                weights: initial_weights,
                learning_rate: config.learning_rate,
                passes_per_batch: ppb,
                batches,
                batches_done: 0,
                adjusted,
            },
        )
    }

    /// The baseline progress record: the diagnostic metric at the current
    /// coefficients, before any chunk has run.
    pub fn initial_report(&self) -> (r: Result<ProgressRecord, TrainError>)
        requires
            self.wf(),
        ensures
            match r {
                Ok(pr) => {
                    &&& pr.batch_index == 0
                    &&& pr.cumulative_iterations == 0
                    &&& mae_raw(
                        self.dataset.kms_spec(),
                        self.dataset.prices_spec(),
                        self.scaler.mean.raw as int,
                        self.scaler.std_dev.raw as int,
                        self.weights.theta0.raw as int,
                        self.weights.theta1.raw as int,
                    ) == Some(pr.metric.raw as int)
                },
                Err(e) => e == TrainError::Data(DataError::OutOfRange) && mae_raw(
                    self.dataset.kms_spec(),
                    self.dataset.prices_spec(),
                    self.scaler.mean.raw as int,
                    self.scaler.std_dev.raw as int,
                    self.weights.theta0.raw as int,
                    self.weights.theta1.raw as int,
                ) is None,
            },
    {
        let metric = match calculate_mean_squared_error(
            &self.dataset,
            &self.scaler,
            self.weights.theta0,
            self.weights.theta1,
        ) {
            Ok(f) => f,
            Err(e) => {
                return Err(e);
            },
        };
        Ok(ProgressRecord { batch_index: 0, cumulative_iterations: 0, metric })
    }

    /// Runs the next chunk: `passes_per_batch` optimizer passes from the
    /// current coefficients, then one progress record at the new ones.
    /// Returns `None`, changing nothing, once every chunk has run.  On an
    /// error the session is left unchanged.
    pub fn next_batch(&mut self) -> (r: Result<Option<ProgressRecord>, TrainError>)
        requires
            old(self).wf(),
        ensures
            match r {
                Ok(opt) => match opt {
                    None => *final(self) == *old(self) && old(self).batches_done == old(
                        self,
                    ).batches,
                    Some(pr) => {
                        &&& old(self).batches_done < old(self).batches
                        &&& final(self).wf()
                        &&& final(self).dataset == old(self).dataset
                        &&& final(self).scaler == old(self).scaler
                        &&& final(self).learning_rate == old(self).learning_rate
                        &&& final(self).passes_per_batch == old(self).passes_per_batch
                        &&& final(self).batches == old(self).batches
                        &&& final(self).adjusted == old(self).adjusted
                        &&& final(self).batches_done == old(self).batches_done + 1
                        &&& gd_raw(
                            old(self).dataset.kms_spec(),
                            old(self).dataset.prices_spec(),
                            old(self).scaler.mean.raw as int,
                            old(self).scaler.std_dev.raw as int,
                            old(self).learning_rate.raw as int,
                            old(self).weights.theta0.raw as int,
                            old(self).weights.theta1.raw as int,
                            old(self).passes_per_batch as nat,
                        ) == Some(
                            (
                                final(self).weights.theta0.raw as int,
                                final(self).weights.theta1.raw as int,
                            ),
                        )
                        &&& pr.batch_index == final(self).batches_done
                        &&& pr.cumulative_iterations as int == (final(self).batches_done as int) * (
                        old(self).passes_per_batch as int)
                        &&& mae_raw(
                            old(self).dataset.kms_spec(),
                            old(self).dataset.prices_spec(),
                            old(self).scaler.mean.raw as int,
                            old(self).scaler.std_dev.raw as int,
                            final(self).weights.theta0.raw as int,
                            final(self).weights.theta1.raw as int,
                        ) == Some(pr.metric.raw as int)
                    },
                },
                Err(e) => {
                    &&& *final(self) == *old(self)
                    &&& e == TrainError::Data(DataError::OutOfRange)
                    &&& match gd_raw(
                        old(self).dataset.kms_spec(),
                        old(self).dataset.prices_spec(),
                        old(self).scaler.mean.raw as int,
                        old(self).scaler.std_dev.raw as int,
                        old(self).learning_rate.raw as int,
                        old(self).weights.theta0.raw as int,
                        old(self).weights.theta1.raw as int,
                        old(self).passes_per_batch as nat,
                    ) {
                        None => true,
                        Some((a, b)) => mae_raw(
                            old(self).dataset.kms_spec(),
                            old(self).dataset.prices_spec(),
                            old(self).scaler.mean.raw as int,
                            old(self).scaler.std_dev.raw as int,
                            a,
                            b,
                        ) is None,
                    }
                },
            },
    {
        if self.batches_done == self.batches {
            return Ok(None);
        }
        let new_weights = match gradient_descent(
            &self.dataset,
            &self.scaler,
            &self.weights,
            self.learning_rate,
            self.passes_per_batch,
        ) {
            Ok(w) => w,
            Err(e) => {
                return Err(e);
            },
        };
        let metric = match calculate_mean_squared_error(
            &self.dataset,
            &self.scaler,
            new_weights.theta0,
            new_weights.theta1,
        ) {
            Ok(f) => f,
            Err(e) => {
                return Err(e);
            },
        };
        let done: u32 = self.batches_done + 1;
        proof {
            assert((done as int) * (self.passes_per_batch as int) <= (self.batches as int) * (
            self.passes_per_batch as int)) by (nonlinear_arith)
                requires
                    done as int <= self.batches as int && self.passes_per_batch as int >= 0,
            ;
        }
        let cumulative: u32 = done * self.passes_per_batch;
        self.weights = new_weights;
        self.batches_done = done;
        Ok(
            Some(
                ProgressRecord {
                    batch_index: done,
                    cumulative_iterations: cumulative,
                    metric,
                },
            ),
        )
    }
}

/// Runs a whole training session: fits the scaler, emits the baseline
/// progress record, runs every chunk, and returns the final coefficients
/// together with the full progress sequence, one record per chunk plus the
/// baseline.
///
/// Succeeds exactly when the configuration is runnable, the dataset has a
/// non-empty feature column of positive variance, and every chunk boundary
/// of the run is representable.
pub fn train_model(dataset: Dataset, initial_weights: Weights, config: TrainingConfig) -> (r:
    Result<(Weights, Vec<ProgressRecord>), TrainError>)
    requires
        dataset.valid(),
        initial_weights.valid(),
        config.learning_rate.valid(),
    ensures
        match r {
            Ok((w, progress)) => {
                &&& config.runnable()
                &&& variance_raw(dataset.kms_spec()) matches Some(v) && v > 0
                &&& run_ok(
                    dataset.kms_spec(),
                    dataset.prices_spec(),
                    column_stats(dataset.kms_spec()).0,
                    column_stats(dataset.kms_spec()).1,
                    config.learning_rate.raw as int,
                    initial_weights.theta0.raw as int,
                    initial_weights.theta1.raw as int,
                    passes_per_batch(config.iterations, config.batch),
                    effective_batch(config.iterations, config.batch),
                )
                &&& progress@.len() == effective_batch(config.iterations, config.batch) + 1
                &&& progress_ok(
                    progress@,
                    dataset.kms_spec(),
                    dataset.prices_spec(),
                    column_stats(dataset.kms_spec()).0,
                    column_stats(dataset.kms_spec()).1,
                    config.learning_rate.raw as int,
                    initial_weights.theta0.raw as int,
                    initial_weights.theta1.raw as int,
                    passes_per_batch(config.iterations, config.batch),
                )
                &&& w.valid()
                &&& gd_raw(
                    dataset.kms_spec(),
                    dataset.prices_spec(),
                    column_stats(dataset.kms_spec()).0,
                    column_stats(dataset.kms_spec()).1,
                    config.learning_rate.raw as int,
                    initial_weights.theta0.raw as int,
                    initial_weights.theta1.raw as int,
                    total_passes(config.iterations, config.batch) as nat,
                ) == Some((w.theta0.raw as int, w.theta1.raw as int))
            },
            Err(e) => {
                ||| e == TrainError::Config(ConfigError::LearningRate)
                    && config.learning_rate.raw <= 0
                ||| e == TrainError::Config(ConfigError::Iterations) && config.learning_rate.raw > 0
                    && config.iterations == 0
                ||| e == TrainError::Config(ConfigError::Batch) && config.learning_rate.raw > 0
                    && config.iterations > 0 && config.batch == 0
                ||| e == TrainError::Data(DataError::Empty) && config.runnable()
                    && dataset.records@.len() == 0
                ||| e == TrainError::Data(DataError::OutOfRange) && config.runnable()
                    && variance_raw(dataset.kms_spec()) is None
                ||| e == TrainError::Data(DataError::ZeroVariance) && config.runnable()
                    && variance_raw(dataset.kms_spec()) == Some(0int)
                ||| e == TrainError::Data(DataError::OutOfRange) && config.runnable() && (
                variance_raw(dataset.kms_spec()) matches Some(v) && v > 0) && !run_ok(
                    dataset.kms_spec(),
                    dataset.prices_spec(),
                    column_stats(dataset.kms_spec()).0,
                    column_stats(dataset.kms_spec()).1,
                    config.learning_rate.raw as int,
                    initial_weights.theta0.raw as int,
                    initial_weights.theta1.raw as int,
                    passes_per_batch(config.iterations, config.batch),
                    effective_batch(config.iterations, config.batch),
                )
            },
        },
{
    let ghost kms = dataset.kms_spec();
    let ghost prices = dataset.prices_spec();
    let ghost m = column_stats(kms).0;
    let ghost sd = column_stats(kms).1;
    let ghost lr = config.learning_rate.raw as int;
    let ghost t0i = initial_weights.theta0.raw as int;
    let ghost t1i = initial_weights.theta1.raw as int;

    let mut session = match TrainingSession::new(dataset, initial_weights, config) {
        Ok(s) => s,
        Err(e) => {
            return Err(e);
        },
    };
    let ghost eb = session.batches as int;
    let ghost ppb = session.passes_per_batch as int;

    let baseline = match session.initial_report() {
        Ok(pr) => pr,
        Err(e) => {
            proof {
                assert(0 * ppb == 0) by (nonlinear_arith);
                assert(!stage_ok(kms, prices, m, sd, lr, t0i, t1i, (0 * ppb) as nat));
                if run_ok(kms, prices, m, sd, lr, t0i, t1i, ppb, eb) {
                    assert(stage_ok(kms, prices, m, sd, lr, t0i, t1i, (0 * ppb) as nat));
                }
            }
            return Err(e);
        },
    };
    let mut progress: Vec<ProgressRecord> = Vec::new();
    progress.push(baseline);
    proof {
        assert(0 * ppb == 0) by (nonlinear_arith);
        assert(progress_ok(progress@, kms, prices, m, sd, lr, t0i, t1i, ppb));
        assert(stage_ok(kms, prices, m, sd, lr, t0i, t1i, (0 * ppb) as nat));
    }

    while session.batches_done < session.batches
        invariant
            config.runnable(),
            kms == dataset.kms_spec(),
            prices == dataset.prices_spec(),
            m == column_stats(kms).0,
            sd == column_stats(kms).1,
            lr == config.learning_rate.raw as int,
            t0i == initial_weights.theta0.raw as int,
            t1i == initial_weights.theta1.raw as int,
            eb == effective_batch(config.iterations, config.batch),
            ppb == passes_per_batch(config.iterations, config.batch),
            variance_raw(kms) matches Some(v) && v > 0,
            session.wf(),
            session.dataset.kms_spec() == kms,
            session.dataset.prices_spec() == prices,
            session.scaler.mean.raw as int == m,
            session.scaler.std_dev.raw as int == sd,
            session.learning_rate.raw as int == lr,
            session.batches as int == eb,
            session.passes_per_batch as int == ppb,
            gd_raw(
                kms,
                prices,
                m,
                sd,
                lr,
                t0i,
                t1i,
                ((session.batches_done as int) * ppb) as nat,
            ) == Some((session.weights.theta0.raw as int, session.weights.theta1.raw as int)),
            progress@.len() == session.batches_done + 1,
            progress_ok(progress@, kms, prices, m, sd, lr, t0i, t1i, ppb),
            forall|k: int|
                0 <= k <= session.batches_done ==> #[trigger] stage_ok(
                    kms,
                    prices,
                    m,
                    sd,
                    lr,
                    t0i,
                    t1i,
                    (k * ppb) as nat,
                ),
        decreases session.batches - session.batches_done,
    {
        let ghost done_before = session.batches_done as int;
        let ghost old_progress = progress@;
        match session.next_batch() {
            Ok(opt) => match opt {
                Some(pr) => {
                    proof {
                        assert(done_before * ppb >= 0) by (nonlinear_arith)
                            requires
                                done_before >= 0 && ppb >= 0,
                        ;
                        lemma_gd_compose(
                            kms,
                            prices,
                            m,
                            sd,
                            lr,
                            t0i,
                            t1i,
                            (done_before * ppb) as nat,
                            ppb as nat,
                        );
                        assert((done_before + 1) * ppb == done_before * ppb + ppb)
                            by (nonlinear_arith);
                        assert(gd_raw(
                            kms,
                            prices,
                            m,
                            sd,
                            lr,
                            t0i,
                            t1i,
                            ((done_before + 1) * ppb) as nat,
                        ) == Some(
                            (session.weights.theta0.raw as int, session.weights.theta1.raw as int),
                        ));
                    }
                    progress.push(pr);
                    proof {
                        assert(stage_ok(
                            kms,
                            prices,
                            m,
                            sd,
                            lr,
                            t0i,
                            t1i,
                            ((done_before + 1) * ppb) as nat,
                        ));
                        assert forall|k: int| 0 <= k < progress@.len() implies {
                            &&& (#[trigger] progress@[k]).batch_index == k
                            &&& progress@[k].cumulative_iterations == k * ppb
                            &&& match gd_raw(kms, prices, m, sd, lr, t0i, t1i, (k * ppb) as nat) {
                                Some((a, b)) => mae_raw(kms, prices, m, sd, a, b) == Some(
                                    progress@[k].metric.raw as int,
                                ),
                                None => false,
                            }
                        } by {
                            if k < old_progress.len() {
                                assert(progress@[k] == old_progress[k]);
                            } else {
                                assert(progress@[k] == pr);
                            }
                        }
                    }
                },
                None => {
                    proof {
                        assert(false);
                    }
                },
            },
            Err(e) => {
                proof {
                    assert(done_before * ppb >= 0) by (nonlinear_arith)
                        requires
                            done_before >= 0 && ppb >= 0,
                    ;
                    lemma_gd_compose(
                        kms,
                        prices,
                        m,
                        sd,
                        lr,
                        t0i,
                        t1i,
                        (done_before * ppb) as nat,
                        ppb as nat,
                    );
                    assert((done_before + 1) * ppb == done_before * ppb + ppb)
                        by (nonlinear_arith);
                    assert(!stage_ok(
                        kms,
                        prices,
                        m,
                        sd,
                        lr,
                        t0i,
                        t1i,
                        ((done_before + 1) * ppb) as nat,
                    ));
                    if run_ok(kms, prices, m, sd, lr, t0i, t1i, ppb, eb) {
                        assert(stage_ok(
                            kms,
                            prices,
                            m,
                            sd,
                            lr,
                            t0i,
                            t1i,
                            ((done_before + 1) * ppb) as nat,
                        ));
                    }
                }
                return Err(e);
            },
        }
    }
    proof {
        assert(run_ok(kms, prices, m, sd, lr, t0i, t1i, ppb, eb));
    }
    Ok((session.weights, progress))
}

} // verus!
