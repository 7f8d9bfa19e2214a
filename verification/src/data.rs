//! The data model: records, datasets and model weights.

use vstd::prelude::*;

use crate::error::{DataError, TrainError};
use crate::fixed::{lemma_sqrt_of, lift, sqrt_of, Fixed, SCALE};
use crate::scaler::{mean_raw, standardize_raw, variance_raw, Scaler};

verus! {

/// The statistics a scaler fit on the feature column `s` must carry: the
/// truncated mean, and the fixed-point square root of the population
/// variance.  Meaningful when the variance exists and is positive.
pub open spec fn column_stats(s: Seq<int>) -> (int, int) {
    (mean_raw(s), sqrt_of(variance_raw(s).unwrap() * (SCALE as int)))
}

/// The standardization of one raw value against the statistics of `s`.
pub open spec fn standardized_against(s: Seq<int>, x: int) -> Option<int> {
    standardize_raw(x, column_stats(s).0, column_stats(s).1)
}

/// One observation: a mileage (the feature) and a price (the target).
#[derive(Clone, Copy, Debug, PartialEq, Eq, Structural)]
pub struct Record {
    pub km: Fixed,
    pub price: Fixed,
}

impl Record {
    /// Both fields are in the representable range.
    pub open spec fn valid(self) -> bool {
        self.km.valid() && self.price.valid()
    }
}

/// An ordered collection of records.
#[derive(Debug)]
pub struct Dataset {
    pub records: Vec<Record>,
}

/// The two coefficients of the linear hypothesis over the standardized
/// feature: intercept and slope.
#[derive(Clone, Copy, Debug, PartialEq, Eq, Structural)]
pub struct Weights {
    pub theta0: Fixed,
    pub theta1: Fixed,
}

impl Weights {
    pub open spec fn valid(self) -> bool {
        self.theta0.valid() && self.theta1.valid()
    }

    /// Packs two coefficients.
    pub fn new(theta0: Fixed, theta1: Fixed) -> (r: Weights)
        ensures
            r.theta0 == theta0,
            r.theta1 == theta1,
    {
        Weights { theta0, theta1 }
    }

    /// The first-use default: both coefficients zero.
    pub fn initial() -> (r: Weights)
        ensures
            r.theta0.raw == 0,
            r.theta1.raw == 0,
            r.valid(),
    {
        Weights { theta0: Fixed::zero(), theta1: Fixed::zero() }
    }
}

impl Dataset {
    /// Every record is in the representable range.
    pub open spec fn valid(self) -> bool {
        forall|i: int| 0 <= i < self.records@.len() ==> (#[trigger] self.records@[i]).valid()
    }

    /// The feature column, as raw fixed-point values.
    pub open spec fn kms_spec(self) -> Seq<int> {
        self.records@.map_values(|r: Record| r.km.raw as int)
    }

    /// The target column, as raw fixed-point values.
    pub open spec fn prices_spec(self) -> Seq<int> {
        self.records@.map_values(|r: Record| r.price.raw as int)
    }

    /// Wraps a record list.
    pub fn new(records: Vec<Record>) -> (r: Dataset)
        ensures
            r.records == records,
    {
        Dataset { records }
    }

    /// Copies the feature column out.
    pub fn get_kms(&self) -> (r: Vec<Fixed>)
        ensures
            r@.len() == self.records@.len(),
            forall|i: int| 0 <= i < r@.len() ==> r@[i] == (#[trigger] self.records@[i]).km,
    {
        let mut kms: Vec<Fixed> = Vec::new();
        let mut i: usize = 0;
        while i < self.records.len()
            invariant
                i <= self.records@.len(),
                kms@.len() == i,
                forall|j: int| 0 <= j < i ==> kms@[j] == (#[trigger] self.records@[j]).km,
            decreases self.records@.len() - i,
        {
            kms.push(self.records[i].km);
            i = i + 1;
        }
        kms
    }

    /// Fits a scaler on this dataset's feature column.
    pub fn fit_scaler(&self) -> (r: Result<Scaler, TrainError>)
        requires
            self.valid(),
        ensures
            match r {
                Ok(sc) => {
                    &&& self.records@.len() > 0
                    &&& sc.wf()
                    &&& variance_raw(self.kms_spec()) matches Some(v) && v > 0
                    &&& (sc.mean.raw as int, sc.std_dev.raw as int) == column_stats(
                        self.kms_spec(),
                    )
                },
                Err(e) => {
                    ||| e == TrainError::Data(DataError::Empty) && self.records@.len() == 0
                    ||| e == TrainError::Data(DataError::OutOfRange) && variance_raw(
                        self.kms_spec(),
                    ) is None
                    ||| e == TrainError::Data(DataError::ZeroVariance) && variance_raw(
                        self.kms_spec(),
                    ) == Some(0int)
                },
            },
    {
        let sc = match Scaler::from_records(&self.records) {
            Ok(sc) => sc,
            Err(e) => {
                return Err(e);
            },
        };
        proof {
            let s = self.kms_spec();
            let v = variance_raw(s).unwrap();
            lemma_sqrt_of(sc.std_dev.raw as int, v * (SCALE as int));
            if v <= 0 {
                assert(sc.std_dev.raw * sc.std_dev.raw >= 1) by (nonlinear_arith)
                    requires
                        sc.std_dev.raw >= 1,
                ;
                assert(v * (SCALE as int) <= 0) by (nonlinear_arith)
                    requires
                        v <= 0 && SCALE as int > 0,
                ;
            }
        }
        Ok(sc)
    }

    /// Standardizes one feature value using statistics fit on this dataset's
    /// own feature column.
    pub fn get_standardized_km(&self, km: Fixed) -> (r: Result<Fixed, TrainError>)
        requires
            self.valid(),
            km.valid(),
        ensures
            match r {
                Ok(f) => {
                    &&& self.records@.len() > 0
                    &&& variance_raw(self.kms_spec()) matches Some(v) && v > 0
                    &&& Some(f) == lift(standardized_against(self.kms_spec(), km.raw as int))
                },
                Err(e) => {
                    ||| e == TrainError::Data(DataError::Empty) && self.records@.len() == 0
                    ||| e == TrainError::Data(DataError::ZeroVariance) && variance_raw(
                        self.kms_spec(),
                    ) == Some(0int)
                    ||| e == TrainError::Data(DataError::OutOfRange) && (variance_raw(
                        self.kms_spec(),
                    ) is None || standardized_against(self.kms_spec(), km.raw as int) is None)
                },
            },
    {
        let sc = match self.fit_scaler() {
            Ok(sc) => sc,
            Err(e) => {
                return Err(e);
            },
        };
        match sc.standardize(km) {
            Some(f) => Ok(f),
            None => Err(TrainError::Data(DataError::OutOfRange)),
        }
    }

    /// A copy of this dataset whose feature column is standardized against
    /// its own statistics; the target column is kept as it is.
    pub fn get_standardized(&self) -> (r: Result<Dataset, TrainError>)
        requires
            self.valid(),
        ensures
            match r {
                Ok(ds) => {
                    &&& self.records@.len() > 0
                    &&& variance_raw(self.kms_spec()) matches Some(v) && v > 0
                    &&& ds.valid()
                    &&& ds.records@.len() == self.records@.len()
                    &&& forall|i: int|
                        0 <= i < ds.records@.len() ==> (#[trigger] ds.records@[i]).price
                            == self.records@[i].price && Some(ds.records@[i].km) == lift(
                            standardized_against(self.kms_spec(), self.records@[i].km.raw as int),
                        )
                },
                Err(e) => {
                    ||| e == TrainError::Data(DataError::Empty) && self.records@.len() == 0
                    ||| e == TrainError::Data(DataError::ZeroVariance) && variance_raw(
                        self.kms_spec(),
                    ) == Some(0int)
                    ||| e == TrainError::Data(DataError::OutOfRange) && (variance_raw(
                        self.kms_spec(),
                    ) is None || exists|i: int|
                        0 <= i < self.records@.len() && standardized_against(
                            self.kms_spec(),
                            (#[trigger] self.records@[i]).km.raw as int,
                        ) is None)
                },
            },
    {
        let sc = match self.fit_scaler() {
            Ok(sc) => sc,
            Err(e) => {
                return Err(e);
            },
        };
        let mut out: Vec<Record> = Vec::new();
        let mut i: usize = 0;
        while i < self.records.len()
            invariant
                self.valid(),
                sc.wf(),
                (sc.mean.raw as int, sc.std_dev.raw as int) == column_stats(self.kms_spec()),
                i <= self.records@.len(),
                out@.len() == i,
                forall|j: int|
                    0 <= j < i ==> (#[trigger] out@[j]).price == self.records@[j].price && Some(
                        out@[j].km,
                    ) == lift(
                        standardized_against(self.kms_spec(), self.records@[j].km.raw as int),
                    ) && out@[j].valid(),
            decreases self.records@.len() - i,
        {
            let rec = self.records[i];
            let std_km = match sc.standardize(rec.km) {
                Some(f) => f,
                None => {
                    return Err(TrainError::Data(DataError::OutOfRange));
                },
            };
            out.push(Record { km: std_km, price: rec.price });
            i = i + 1;
        }
        Ok(Dataset { records: out })
    }
}

} // verus!
