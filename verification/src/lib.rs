//! Price direction labelling for a single instrument, with verified parsing,
//! feature construction and evaluation around a Gaussian naive Bayes classifier.

pub mod chart;
pub mod classifier;
pub mod error;
pub mod evaluation;
pub mod features;
pub mod json;
pub mod number;
pub mod parser;
