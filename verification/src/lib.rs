//! Change-point detection on fixed-point observations: gain functions that
//! score a split of a segment, an exhaustive optimizer over the admissible
//! splits, and a permutation test that decides whether a split is
//! significant.
//!
//! All quantities are exact. Observations and likelihoods are 32-bit
//! fixed-point numbers, gains are rational numbers, and shares and levels
//! are fractions; every contract is stated over them.

pub mod change_in_mean;
pub mod control;
pub mod gain;
pub mod matrix;
pub mod model_selection;
pub mod optimizer;
pub mod random;
pub mod ratio;

pub use crate::change_in_mean::ChangeInMean;
pub use crate::control::Control;
pub use crate::gain::classifier_gain::{Classifier, ClassifierGain};
pub use crate::gain::{ApproxGain, Gain};
pub use crate::model_selection::ModelSelectionResult;
pub use crate::optimizer::grid_search::GridSearch;
pub use crate::optimizer::optimizer_result::OptimizerResult;
pub use crate::optimizer::Optimizer;
