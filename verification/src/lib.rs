//! Univariate linear regression by batch gradient descent: a price is
//! predicted from a mileage by a line fitted over the standardized feature.
//!
//! The numeric core works on [`fixed::Fixed`], a fixed-point number with six
//! decimal digits of fraction, so that every arithmetic step has an exact,
//! machine-checked meaning.  Feature standardization ([`scaler`]), the linear
//! hypothesis and its metrics ([`model`]), the gradient-descent loop
//! ([`optimizer`]), the batched orchestration with progress reporting
//! ([`session`]) and the durable text form of the coefficients ([`store`])
//! are all specified and verified down to that arithmetic.  Reading files,
//! prompting, and drawing tables or charts belong to the callers.

pub mod data;
pub mod error;
pub mod fixed;
pub mod model;
pub mod optimizer;
pub mod scaler;
pub mod session;
pub mod store;
pub mod text;
