//! A mergeable quantile sketch with a relative-error guarantee.
//!
//! The sketch rounds every observation into a logarithmic bucket and keeps one
//! counter per bucket, so that any quantile can be estimated within the
//! relative accuracy that the sketch was built with.
//!
//! This crate is the sketch without its floating-point arithmetic, every
//! function of it verified:
//!
//! - [`store`]: the bucket stores, unbounded ([`DenseStore`]) and bounded
//!   ([`CollapsingStore`]), over the model in [`counts`] and the fusion rule
//!   in [`collapse`];
//! - [`ddsketch`]: the sketch, which tells the observations apart by sign,
//!   counts them, keeps the least and the greatest one, answers quantile
//!   queries, merges and clears;
//! - [`double`]: double-precision numbers held by their bit pattern, which is
//!   enough to tell their sign and their order;
//! - [`laws`]: what holds of every sketch.
//!
//! What takes a logarithm, a product or a difference of doubles is computed by
//! the caller and handed in: the bucket index of an observation, the rank
//! that a quantile stands for, and the distance between two relative
//! accuracies.

use vstd::prelude::*;

pub mod collapse;
pub mod counts;
pub mod ddsketch;
pub mod double;
pub mod laws;
pub mod store;

pub use ddsketch::{Bucket, DDSketch, Estimate};
pub use double::Double;
pub use store::{Bins, CollapsingStore, DenseStore, Store};

verus! {

/// Errors that sketch operations report.
#[derive(Debug, Clone, Copy, PartialEq, Eq, Structural)]
pub enum DDSketchError {
    /// The relative accuracy is not strictly between 0 and 1.
    InvalidRelativeAccuracy,
    /// The quantile is not between 0 and 1.
    InvalidQuantile,
    /// The sketch holds no observation.
    EmptySketch,
    /// The two sketches were built with different relative accuracies.
    IncompatibleSketches,
}

impl DDSketchError {
    /// The text that describes the error.
    pub open spec fn spec_message(self) -> Seq<char> {
        match self {
            DDSketchError::InvalidRelativeAccuracy => "Relative accuracy must be between 0 and 1"@,
            DDSketchError::InvalidQuantile => "Quantile must be between 0 and 1"@,
            DDSketchError::EmptySketch => "Cannot compute quantile from empty sketch"@,
            DDSketchError::IncompatibleSketches => "Sketches are incompatible for merging"@,
        }
    }

    /// Renders the error as a human-readable sentence.
    pub fn message(&self) -> (text: String)
        ensures
            text@ == self.spec_message(),
    {
        match self {
            DDSketchError::InvalidRelativeAccuracy => {
                "Relative accuracy must be between 0 and 1".to_owned()
            },
            DDSketchError::InvalidQuantile => "Quantile must be between 0 and 1".to_owned(),
            DDSketchError::EmptySketch => "Cannot compute quantile from empty sketch".to_owned(),
            DDSketchError::IncompatibleSketches => "Sketches are incompatible for merging".to_owned(),
        }
    }
}

} // verus!
