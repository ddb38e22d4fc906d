//! Trust in the reasoning of an agent, assessed from the conviction score of
//! its wallet.
//!
//! [`trust`] holds the assessment and [`source`] what concerns the fetch of a
//! score. Scores are binary64 numbers held by their bit patterns
//! ([`binary64`]); [`fixed`] and [`decimal`] show them with two decimal places.

pub mod binary64;
pub mod decimal;
pub mod fixed;
pub mod source;
pub mod trust;

pub use binary64::Binary64;
pub use source::{ConvictionScore, FetchFailure, HttpStatus};
pub use trust::{assess_reasoning_trust, classify, TrustAssessment, TrustLevel};
