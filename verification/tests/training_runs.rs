use ft_linear_regression::data::{Dataset, Record, Weights};
use ft_linear_regression::error::{ConfigError, DataError, TrainError};
use ft_linear_regression::fixed::Fixed;
use ft_linear_regression::optimizer::{gradient_descent, train};
use ft_linear_regression::scaler::Scaler;
use ft_linear_regression::session::{train_model, TrainingConfig, TrainingSession};

fn fx(raw: i64) -> Fixed {
    Fixed { raw }
}

fn rec(km: i64, price: i64) -> Record {
    Record { km: Fixed::from_int(km).unwrap(), price: Fixed::from_int(price).unwrap() }
}

fn mileage_dataset() -> Dataset {
    Dataset::new(vec![rec(10000, 20000), rec(20000, 18000), rec(30000, 16000), rec(40000, 14000)])
}

fn two_point_dataset() -> Dataset {
    Dataset::new(vec![rec(0, 5), rec(2, 9)])
}

fn config(learning_rate: Fixed, iterations: u32, batch: u32) -> TrainingConfig {
    TrainingConfig { learning_rate, iterations, batch }
}

#[test]
fn zero_iterations_return_the_input_weights() {
    let ds = two_point_dataset();
    let sc = Scaler::from_records(&ds.records).unwrap();
    let w = Weights::new(fx(3_141_592), fx(-2_718_281));
    let out = gradient_descent(&ds, &sc, &w, fx(100_000), 0).unwrap();
    assert_eq!(out, w);
}

#[test]
fn one_pass_steps_both_coefficients_simultaneously() {
    // Standardized features -1 and +1, targets 5 and 9, start at (0, 0),
    // learning rate 0.5: the intercept steps to 3.5 (half the mean target),
    // the slope to 1 (half the optimal slope 2).
    let ds = two_point_dataset();
    let sc = Scaler::from_records(&ds.records).unwrap();
    let w = Weights::new(fx(0), fx(0));
    let out = gradient_descent(&ds, &sc, &w, fx(500_000), 1).unwrap();
    assert_eq!(out.theta0.raw, 3_500_000);
    assert_eq!(out.theta1.raw, 1_000_000);
}

#[test]
fn train_fits_the_scaler_itself() {
    let ds = two_point_dataset();
    let w = Weights::new(fx(0), fx(0));
    let out = train(&ds, &w, fx(500_000), 1).unwrap();
    assert_eq!(out.theta0.raw, 3_500_000);
    assert_eq!(out.theta1.raw, 1_000_000);
}

#[test]
fn batch_splitting_drops_the_remainder() {
    // 100 iterations in 7 chunks: 7 * 14 == 98 passes, 8 progress records,
    // the last one at cumulative pass 98.
    let ds = mileage_dataset();
    let (_, progress) = train_model(
        ds,
        Weights::initial(),
        config(fx(100_000), 100, 7),
    )
    .unwrap();
    assert_eq!(progress.len(), 8);
    for (k, pr) in progress.iter().enumerate() {
        assert_eq!(pr.batch_index as usize, k);
        assert_eq!(pr.cumulative_iterations as usize, k * 14);
    }
    assert_eq!(progress[7].cumulative_iterations, 98);
}

#[test]
fn batch_larger_than_iterations_is_clamped() {
    let ds = mileage_dataset();
    let session =
        TrainingSession::new(ds, Weights::initial(), config(fx(100_000), 5, 10)).unwrap();
    assert!(session.adjusted);
    assert_eq!(session.batches, 5);
    assert_eq!(session.passes_per_batch, 1);
}

#[test]
fn session_runs_chunks_until_exhausted() {
    let ds = mileage_dataset();
    let mut session =
        TrainingSession::new(ds, Weights::initial(), config(fx(100_000), 10, 2)).unwrap();
    let baseline = session.initial_report().unwrap();
    assert_eq!(baseline.batch_index, 0);
    assert_eq!(baseline.cumulative_iterations, 0);
    assert_eq!(baseline.metric.raw, 17_000_000_000); // mean absolute target at (0, 0)
    let first = session.next_batch().unwrap().unwrap();
    assert_eq!(first.batch_index, 1);
    assert_eq!(first.cumulative_iterations, 5);
    let second = session.next_batch().unwrap().unwrap();
    assert_eq!(second.batch_index, 2);
    assert_eq!(second.cumulative_iterations, 10);
    assert!(session.next_batch().unwrap().is_none());
}

#[test]
fn metric_improves_chunk_by_chunk_on_a_convex_dataset() {
    // A learning rate well below the divergence threshold on a perfectly
    // linear dataset: the diagnostic metric never worsens between chunks.
    let ds = mileage_dataset();
    let (_, progress) = train_model(
        ds,
        Weights::initial(),
        config(fx(100_000), 50, 5),
    )
    .unwrap();
    assert_eq!(progress.len(), 6);
    for pair in progress.windows(2) {
        assert!(pair[1].metric.raw <= pair[0].metric.raw);
    }
}

#[test]
fn converges_on_the_perfectly_linear_dataset() {
    // learning_rate 0.1, 1000 iterations, one batch; afterwards the
    // prediction at the mean mileage 25000 must be 17000 within 1.0.
    let ds = mileage_dataset();
    let (w, progress) = train_model(
        ds,
        Weights::initial(),
        config(fx(100_000), 1000, 1),
    )
    .unwrap();
    assert_eq!(progress.len(), 2);
    assert_eq!(progress[1].cumulative_iterations, 1000);
    let ds = mileage_dataset();
    let std_km = ds.get_standardized_km(Fixed::from_int(25000).unwrap()).unwrap();
    assert_eq!(std_km.raw, 0);
    let price = ft_linear_regression::model::predict_price(std_km, w.theta0, w.theta1).unwrap();
    let expected = 17_000i64 * 1_000_000;
    assert!((price.raw - expected).abs() <= 1_000_000);
}

#[test]
fn weights_persist_exactly_across_chunks() {
    // Running two chunks of five passes step by step gives the same
    // coefficients as one run of ten passes.
    let ds = mileage_dataset();
    let sc = Scaler::from_records(&ds.records).unwrap();
    let direct = gradient_descent(&ds, &sc, &Weights::initial(), fx(100_000), 10).unwrap();
    let mut session =
        TrainingSession::new(mileage_dataset(), Weights::initial(), config(fx(100_000), 10, 2))
            .unwrap();
    session.next_batch().unwrap().unwrap();
    session.next_batch().unwrap().unwrap();
    assert_eq!(session.weights, direct);
}

#[test]
fn config_errors_name_the_bad_field() {
    let w = Weights::initial();
    assert_eq!(
        train_model(mileage_dataset(), w, config(fx(0), 10, 2)).unwrap_err(),
        TrainError::Config(ConfigError::LearningRate)
    );
    assert_eq!(
        train_model(mileage_dataset(), w, config(fx(-100_000), 10, 2)).unwrap_err(),
        TrainError::Config(ConfigError::LearningRate)
    );
    assert_eq!(
        train_model(mileage_dataset(), w, config(fx(100_000), 0, 2)).unwrap_err(),
        TrainError::Config(ConfigError::Iterations)
    );
    assert_eq!(
        train_model(mileage_dataset(), w, config(fx(100_000), 10, 0)).unwrap_err(),
        TrainError::Config(ConfigError::Batch)
    );
}

#[test]
fn training_an_untrainable_dataset_fails() {
    let empty = Dataset::new(Vec::new());
    assert_eq!(
        train_model(empty, Weights::initial(), config(fx(100_000), 10, 2)).unwrap_err(),
        TrainError::Data(DataError::Empty)
    );
    let constant = Dataset::new(vec![rec(5, 1), rec(5, 2)]);
    assert_eq!(
        train_model(constant, Weights::initial(), config(fx(100_000), 10, 2)).unwrap_err(),
        TrainError::Data(DataError::ZeroVariance)
    );
}

#[test]
fn diverging_training_reports_a_range_error() {
    // A huge learning rate makes the coefficients explode past the
    // representable range instead of silently wrapping.
    let ds = mileage_dataset();
    let err = train_model(
        ds,
        Weights::initial(),
        config(fx(1_000_000_000_000), 10_000, 1),
    )
    .unwrap_err();
    assert_eq!(err, TrainError::Data(DataError::OutOfRange));
}
