use ft_linear_regression::data::{Dataset, Record, Weights};
use ft_linear_regression::error::{DataError, TrainError};
use ft_linear_regression::fixed::Fixed;
use ft_linear_regression::model::{
    calculate_mean_squared_error, calculate_precision, predict, predict_price, prediction_compare,
};
use ft_linear_regression::scaler::Scaler;

fn fx(raw: i64) -> Fixed {
    Fixed { raw }
}

/// Two records whose standardized features are exactly -1 and +1.
fn two_point_dataset(price_a: i64, price_b: i64) -> (Dataset, Scaler) {
    let ds = Dataset::new(vec![
        Record { km: Fixed::from_int(0).unwrap(), price: Fixed::from_int(price_a).unwrap() },
        Record { km: Fixed::from_int(2).unwrap(), price: Fixed::from_int(price_b).unwrap() },
    ]);
    let sc = Scaler::from_records(&ds.records).unwrap();
    assert_eq!(sc.mean.raw, 1_000_000);
    assert_eq!(sc.std_dev.raw, 1_000_000);
    (ds, sc)
}

#[test]
fn predict_is_slope_times_feature_plus_intercept() {
    // 2 * 3 + 1 == 7
    let r = predict(fx(3_000_000), fx(1_000_000), fx(2_000_000)).unwrap();
    assert_eq!(r.raw, 7_000_000);
    // predict_price is the same hypothesis
    let r2 = predict_price(fx(3_000_000), fx(1_000_000), fx(2_000_000)).unwrap();
    assert_eq!(r2.raw, r.raw);
}

#[test]
fn predict_is_affine_in_the_feature() {
    // slope 2; features 1 and 2: both slope products are exact multiples of
    // the scale, so the difference of predictions is exactly slope * delta.
    let t0 = fx(5_000_000);
    let t1 = fx(2_000_000);
    let a = fx(1_000_000);
    let a_plus_b = fx(3_000_000);
    let pa = predict(a, t0, t1).unwrap().raw;
    let pab = predict(a_plus_b, t0, t1).unwrap().raw;
    assert_eq!(pab - pa, 4_000_000); // theta1 * b == 2 * 2
}

#[test]
fn mean_squared_error_is_the_mean_absolute_error() {
    let (ds, sc) = two_point_dataset(5, 9);
    // Perfect fit: price == 2 * std_x + 7.
    let zero = calculate_mean_squared_error(&ds, &sc, fx(7_000_000), fx(2_000_000)).unwrap();
    assert_eq!(zero.raw, 0);
    // Flat hypothesis at 7: both absolute errors are 2, so the mean is 2.
    let two = calculate_mean_squared_error(&ds, &sc, fx(7_000_000), fx(0)).unwrap();
    assert_eq!(two.raw, 2_000_000);
}

#[test]
fn precision_is_one_for_a_perfect_fit() {
    let (ds, sc) = two_point_dataset(5, 9);
    let w = Weights::new(fx(7_000_000), fx(2_000_000));
    let r2 = calculate_precision(&ds, &sc, &w).unwrap();
    assert_eq!(r2.raw, 1_000_000); // exactly 1.0
}

#[test]
fn precision_is_clamped_to_zero() {
    let (ds, sc) = two_point_dataset(5, 9);
    // The flat mean predictor: residual sum equals total sum, 1 - 1 == 0.
    let w = Weights::new(fx(7_000_000), fx(0));
    assert_eq!(calculate_precision(&ds, &sc, &w).unwrap().raw, 0);
    // Worse than the mean predictor: clamped, not negative.
    let w = Weights::new(fx(7_000_000), fx(-2_000_000));
    assert_eq!(calculate_precision(&ds, &sc, &w).unwrap().raw, 0);
}

#[test]
fn precision_on_constant_targets_is_a_zero_variance_error() {
    let (ds, sc) = two_point_dataset(5, 5);
    let w = Weights::new(fx(5_000_000), fx(0));
    assert_eq!(
        calculate_precision(&ds, &sc, &w).unwrap_err(),
        TrainError::Data(DataError::ZeroVariance)
    );
}

#[test]
fn comparison_rows_hold_exact_values() {
    let (ds, sc) = two_point_dataset(5, 9);
    let w = Weights::new(fx(7_000_000), fx(2_000_000));
    let rows = prediction_compare(&ds, &sc, &w).unwrap();
    assert_eq!(rows.len(), 2);
    for (i, row) in rows.iter().enumerate() {
        assert_eq!(row.len(), 4);
        assert_eq!(row[0].raw, ds.records[i].km.raw);
        assert_eq!(row[1].raw, ds.records[i].price.raw);
        assert_eq!(row[2].raw, ds.records[i].price.raw); // perfect predictions
        assert_eq!(row[3].raw, 100_000_000); // accuracy of 100 percent
    }
}

#[test]
fn comparison_on_a_zero_target_is_a_range_error() {
    let (ds, sc) = two_point_dataset(0, 9);
    let w = Weights::new(fx(0), fx(0));
    assert_eq!(
        prediction_compare(&ds, &sc, &w).unwrap_err(),
        TrainError::Data(DataError::OutOfRange)
    );
}
