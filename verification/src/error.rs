//! Error kinds of the training core.

use vstd::prelude::*;

verus! {

/// A dataset that cannot be trained on.
#[derive(Clone, Copy, Debug, PartialEq, Eq, Structural)]
pub enum DataError {
    /// The dataset holds no record.
    Empty,
    /// The feature column is constant, so standardization would divide by zero.
    ZeroVariance,
    /// An intermediate value left the representable fixed-point range.
    OutOfRange,
}

/// A training configuration that cannot be run.
#[derive(Clone, Copy, Debug, PartialEq, Eq, Structural)]
pub enum ConfigError {
    /// The learning rate is not positive.
    LearningRate,
    /// The iteration count is zero.
    Iterations,
    /// The batch count is zero.
    Batch,
}

/// Any failure the training core can report.
#[derive(Clone, Copy, Debug, PartialEq, Eq, Structural)]
pub enum TrainError {
    Data(DataError),
    Config(ConfigError),
}

} // verus!
