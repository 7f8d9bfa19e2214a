use ft_linear_regression::data::{Dataset, Record};
use ft_linear_regression::error::{DataError, TrainError};
use ft_linear_regression::fixed::Fixed;
use ft_linear_regression::scaler::{
    get_mean, get_standard_deviation, get_variance, Scaler,
};

fn fx(raw: i64) -> Fixed {
    Fixed { raw }
}

fn rec(km: i64, price: i64) -> Record {
    Record { km: Fixed::from_int(km).unwrap(), price: Fixed::from_int(price).unwrap() }
}

fn mileage_dataset() -> Dataset {
    Dataset::new(vec![rec(10000, 20000), rec(20000, 18000), rec(30000, 16000), rec(40000, 14000)])
}

#[test]
fn mean_variance_and_std_dev_of_the_mileage_column() {
    let ds = mileage_dataset();
    let kms = ds.get_kms();
    assert_eq!(get_mean(&kms).raw, 25_000_000_000);
    assert_eq!(get_variance(&kms).unwrap().raw, 125_000_000_000_000);
    assert_eq!(get_standard_deviation(&kms).unwrap().raw, 11_180_339_887);
}

#[test]
fn mean_truncates_toward_zero() {
    let values = vec![fx(1), fx(0), fx(0)];
    assert_eq!(get_mean(&values).raw, 0);
    let values = vec![fx(-1), fx(0), fx(0)];
    assert_eq!(get_mean(&values).raw, 0);
}

#[test]
fn fitting_standardizes_the_mean_to_zero() {
    let ds = mileage_dataset();
    let sc = Scaler::from_records(&ds.records).unwrap();
    assert_eq!(sc.mean.raw, 25_000_000_000);
    assert_eq!(sc.std_dev.raw, 11_180_339_887);
    // The mean itself standardizes to exactly zero.
    assert_eq!(sc.standardize(sc.mean).unwrap().raw, 0);
    // The transform is (x - mean) / std_dev.
    assert_eq!(sc.standardize(Fixed::from_int(10000).unwrap()).unwrap().raw, -1_341_640);
    assert_eq!(sc.standardize(Fixed::from_int(40000).unwrap()).unwrap().raw, 1_341_640);
}

#[test]
fn standardize_is_linear_on_exact_points() {
    // std_dev divides both scaled deviations: the transform adds up exactly.
    let sc = Scaler { mean: fx(10 * 1_000_000), std_dev: fx(2 * 1_000_000) };
    let a = fx(14 * 1_000_000); // deviation 4 -> standardized 2
    let b = fx(16 * 1_000_000); // deviation 6 -> standardized 3
    let sum_dev = fx(20 * 1_000_000); // deviation 4 + 6 -> standardized 5
    let sa = sc.standardize(a).unwrap().raw;
    let sb = sc.standardize(b).unwrap().raw;
    let ss = sc.standardize(sum_dev).unwrap().raw;
    assert_eq!(sa, 2_000_000);
    assert_eq!(sb, 3_000_000);
    assert_eq!(ss, sa + sb);
}

#[test]
fn fitting_an_empty_dataset_is_a_data_error() {
    let records: Vec<Record> = Vec::new();
    assert_eq!(
        Scaler::from_records(&records).unwrap_err(),
        TrainError::Data(DataError::Empty)
    );
}

#[test]
fn fitting_a_constant_feature_is_a_data_error() {
    let records = vec![rec(5000, 1), rec(5000, 2), rec(5000, 3)];
    assert_eq!(
        Scaler::from_records(&records).unwrap_err(),
        TrainError::Data(DataError::ZeroVariance)
    );
}

#[test]
fn fitting_an_extreme_feature_is_a_range_error() {
    // Deviations of a trillion square to more than the representable range.
    let records = vec![
        Record { km: fx(1_000_000_000_000_000_000), price: fx(0) },
        Record { km: fx(-1_000_000_000_000_000_000), price: fx(0) },
    ];
    assert_eq!(
        Scaler::from_records(&records).unwrap_err(),
        TrainError::Data(DataError::OutOfRange)
    );
}

#[test]
fn standardizing_a_whole_dataset_keeps_targets() {
    let ds = mileage_dataset();
    let std = ds.get_standardized().unwrap();
    assert_eq!(std.records.len(), 4);
    let expected = [-1_341_640i64, -447_213, 447_213, 1_341_640];
    for (i, r) in std.records.iter().enumerate() {
        assert_eq!(r.km.raw, expected[i]);
        assert_eq!(r.price.raw, ds.records[i].price.raw);
    }
}

#[test]
fn standardizing_one_value_against_the_dataset() {
    let ds = mileage_dataset();
    let s = ds.get_standardized_km(Fixed::from_int(25000).unwrap()).unwrap();
    assert_eq!(s.raw, 0);
    let s = ds.get_standardized_km(Fixed::from_int(10000).unwrap()).unwrap();
    assert_eq!(s.raw, -1_341_640);
}
