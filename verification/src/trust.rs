//! How far to trust the reasoning of an agent, from the conviction score of
//! its wallet.
//!
//! A score of at least four fifths earns high trust, one of at least two
//! fifths medium trust, any other low trust. Where the score could not be
//! fetched the trust is medium: an agent that cannot be checked is neither
//! trusted in full nor distrusted.

use crate::binary64::{
    lemma_below_or_at_least, lemma_ge_decides_ratio, lemma_quanta_order, quanta,
    quantum_exponent, Binary64, INFINITY_BITS,
};
use crate::source::{ConvictionScore, FetchFailure};
use vstd::arithmetic::power2::{lemma2_to64_rest, lemma_pow2_adds, lemma_pow2_pos, pow2};
use vstd::prelude::*;
use vstd::string::StringExecFns;

verus! {

/// The bit pattern of the least binary64 number that is at least four
/// fifths: the least score of high trust.
pub const HIGH_THRESHOLD_BITS: u64 = 0x3FE9_9999_9999_999A;

/// The bit pattern of the least binary64 number that is at least two fifths:
/// the least score of medium trust.
pub const MEDIUM_THRESHOLD_BITS: u64 = 0x3FD9_9999_9999_999A;

/// How far the reasoning of an agent is trusted.
#[derive(Clone, Copy, Debug, PartialEq, Eq, Structural)]
pub enum TrustLevel {
    High,
    Medium,
    Low,
}

/// The outcome of an assessment.
#[derive(Clone, Debug, PartialEq, Eq)]
pub struct TrustAssessment {
    pub trust_level: TrustLevel,
    /// The score that the level rests on. Absent where none could be fetched.
    pub conviction: Option<ConvictionScore>,
    /// What the level rests on, in words.
    pub reason: String,
}

/// Whether a score earns high trust: it is at least four fifths.
pub open spec fn earns_high(score: Binary64) -> bool {
    score.at_least(4, 5)
}

/// Whether a score earns at least medium trust: it is at least two fifths.
pub open spec fn earns_medium(score: Binary64) -> bool {
    score.at_least(2, 5)
}

/// The trust that a score earns.
pub open spec fn level_of(score: Binary64) -> TrustLevel {
    if earns_high(score) {
        TrustLevel::High
    } else if earns_medium(score) {
        TrustLevel::Medium
    } else {
        TrustLevel::Low
    }
}

/// The reason given with a score: the score and the two activities, each with
/// two decimal places.
pub open spec fn score_reason(conviction: ConvictionScore) -> Seq<char> {
    "Conviction score: "@ + conviction.score.fixed2_text() + " (DeFi: "@
        + conviction.defi_activity.fixed2_text() + ", Prediction: "@
        + conviction.prediction_market_activity.fixed2_text() + ")"@
}

/// The reason given where the score could not be fetched: the description of
/// the failure, after a fixed opening.
pub open spec fn failure_reason(failure: FetchFailure) -> Seq<char> {
    "Could not fetch conviction: "@ + failure.message_text()
}

impl TrustAssessment {
    /// Whether the level and the reason are those that the conviction calls
    /// for: with a score, the level that the score earns and the reason that
    /// shows it; without one, medium trust.
    pub open spec fn is_consistent(self) -> bool {
        match self.conviction {
            Some(conviction) => {
                &&& self.trust_level == level_of(conviction.score)
                &&& self.reason@ == score_reason(conviction)
            },
            None => {
                &&& self.trust_level == TrustLevel::Medium
                &&& "Could not fetch conviction: "@.is_prefix_of(self.reason@)
            },
        }
    }
}

/// The two thresholds are the least numbers that reach their ratios.
pub proof fn lemma_thresholds()
    ensures
        quanta(HIGH_THRESHOLD_BITS as nat) * 5 >= 4 * pow2(quantum_exponent()),
        quanta((HIGH_THRESHOLD_BITS - 1) as nat) * 5 < 4 * pow2(quantum_exponent()),
        quanta(MEDIUM_THRESHOLD_BITS as nat) * 5 >= 2 * pow2(quantum_exponent()),
        quanta((MEDIUM_THRESHOLD_BITS - 1) as nat) * 5 < 2 * pow2(quantum_exponent()),
{
    lemma2_to64_rest();
    let unit = pow2(quantum_exponent()) as int;
    let high_scale = pow2(1021) as int;
    let medium_scale = pow2(1020) as int;
    lemma_pow2_pos(1021);
    lemma_pow2_pos(1020);
    lemma_pow2_adds(53, 1021);
    lemma_pow2_adds(54, 1020);
    assert(unit == 0x20_0000_0000_0000 * high_scale);
    assert(unit == 0x40_0000_0000_0000 * medium_scale);
    let reaching: int = 0x19_9999_9999_999A;
    let missing: int = 0x19_9999_9999_9999;
    assert(quanta(HIGH_THRESHOLD_BITS as nat) == reaching * high_scale);
    assert(quanta((HIGH_THRESHOLD_BITS - 1) as nat) == missing * high_scale);
    assert(quanta(MEDIUM_THRESHOLD_BITS as nat) == reaching * medium_scale);
    assert(quanta((MEDIUM_THRESHOLD_BITS - 1) as nat) == missing * medium_scale);
    assert((reaching * high_scale) * 5 >= 4 * (0x20_0000_0000_0000 * high_scale))
        by (nonlinear_arith)
        requires
            reaching == 0x19_9999_9999_999A,
            high_scale > 0,
    ;
    assert((missing * high_scale) * 5 < 4 * (0x20_0000_0000_0000 * high_scale))
        by (nonlinear_arith)
        requires
            missing == 0x19_9999_9999_9999,
            high_scale > 0,
    ;
    assert((reaching * medium_scale) * 5 >= 2 * (0x40_0000_0000_0000 * medium_scale))
        by (nonlinear_arith)
        requires
            reaching == 0x19_9999_9999_999A,
            medium_scale > 0,
    ;
    assert((missing * medium_scale) * 5 < 2 * (0x40_0000_0000_0000 * medium_scale))
        by (nonlinear_arith)
        requires
            missing == 0x19_9999_9999_9999,
            medium_scale > 0,
    ;
}

/// The three levels part the scores into three bands, and every score falls
/// into one: high from four fifths on, medium from two fifths up to four
/// fifths, low below two fifths. A NaN, which is in no order with any number,
/// falls to low.
pub proof fn lemma_bands(score: Binary64)
    ensures
        level_of(score) == TrustLevel::High <==> score.at_least(4, 5),
        level_of(score) == TrustLevel::Medium <==> score.at_least(2, 5) && score.below(4, 5),
        !score.is_nan() ==> (level_of(score) == TrustLevel::Low <==> score.below(2, 5)),
        score.is_nan() ==> level_of(score) == TrustLevel::Low,
{
    lemma_below_or_at_least(score, 4, 5);
    lemma_below_or_at_least(score, 2, 5);
    if score.at_least(4, 5) && !score.is_infinite() {
        let unit = pow2(quantum_exponent()) as int;
        lemma_pow2_pos(quantum_exponent());
        assert(score.value() * 5 >= 2 * unit);
    }
}

/// The bands in bit patterns: a score earns high trust exactly if its bit
/// pattern lies from that of the high threshold up to that of positive
/// infinity, and medium trust exactly if it lies from that of the medium
/// threshold up to just below that of the high one.
pub proof fn lemma_level_of_bits(score: Binary64)
    ensures
        level_of(score) == TrustLevel::High <==> HIGH_THRESHOLD_BITS <= score.bits
            <= INFINITY_BITS,
        level_of(score) == TrustLevel::Medium <==> MEDIUM_THRESHOLD_BITS <= score.bits
            < HIGH_THRESHOLD_BITS,
{
    let high = Binary64 { bits: HIGH_THRESHOLD_BITS };
    let medium = Binary64 { bits: MEDIUM_THRESHOLD_BITS };
    lemma_thresholds();
    lemma_ge_decides_ratio(score, high, 4, 5);
    lemma_ge_decides_ratio(score, medium, 2, 5);
    lemma_quanta_order(score.magnitude_bits() as nat, HIGH_THRESHOLD_BITS as nat);
    lemma_quanta_order(score.magnitude_bits() as nat, MEDIUM_THRESHOLD_BITS as nat);
    lemma_quanta_order(0, HIGH_THRESHOLD_BITS as nat);
    lemma_quanta_order(0, MEDIUM_THRESHOLD_BITS as nat);
}

/// The trust that a score earns.
pub fn classify(score: Binary64) -> (level: TrustLevel)
    ensures
        level == level_of(score),
        level == TrustLevel::High <==> score.at_least(4, 5),
        level == TrustLevel::Medium <==> score.at_least(2, 5) && score.below(4, 5),
        level == TrustLevel::Low <==> score.is_nan() || score.below(2, 5),
{
    let high = Binary64::from_bits(HIGH_THRESHOLD_BITS);
    let medium = Binary64::from_bits(MEDIUM_THRESHOLD_BITS);
    proof {
        lemma_thresholds();
        lemma_ge_decides_ratio(score, high, 4, 5);
        lemma_ge_decides_ratio(score, medium, 2, 5);
        lemma_bands(score);
    }
    if score.ge(high) {
        TrustLevel::High
    } else if score.ge(medium) {
        TrustLevel::Medium
    } else {
        TrustLevel::Low
    }
}

/// The reason given with a score.
pub fn describe_score(conviction: &ConvictionScore) -> (reason: String)
    ensures
        reason@ == score_reason(*conviction),
{
    let mut reason = String::from_str("Conviction score: ");
    let score = conviction.score.fixed2();
    reason.append(score.as_str());
    reason.append(" (DeFi: ");
    let defi = conviction.defi_activity.fixed2();
    reason.append(defi.as_str());
    reason.append(", Prediction: ");
    let prediction = conviction.prediction_market_activity.fixed2();
    reason.append(prediction.as_str());
    reason.append(")");
    reason
}

/// Assesses the trust in an agent's reasoning from what the fetch of its
/// wallet's conviction score came to.
///
/// With a score, the level is the one that the score earns and the reason
/// shows the score. With a failure, of whatever kind, the level is medium, no
/// conviction is given and the reason describes the failure.
pub fn assess_reasoning_trust(fetched: Result<ConvictionScore, FetchFailure>) -> (assessment:
    TrustAssessment)
    ensures
        assessment.is_consistent(),
        assessment.conviction is Some <==> fetched is Ok,
        fetched is Err ==> assessment.trust_level == TrustLevel::Medium,
        match fetched {
            Ok(conviction) => {
                &&& assessment.trust_level == level_of(conviction.score)
                &&& assessment.conviction == Some(conviction)
                &&& assessment.reason@ == score_reason(conviction)
            },
            Err(failure) => {
                &&& assessment.trust_level == TrustLevel::Medium
                &&& assessment.conviction is None
                &&& assessment.reason@ == failure_reason(failure)
            },
        },
{
    match fetched {
        Ok(conviction) => {
            let trust_level = classify(conviction.score);
            let reason = describe_score(&conviction);
            TrustAssessment { trust_level, conviction: Some(conviction), reason }
        },
        Err(failure) => {
            let described = failure.message();
            let reason = String::from_str("Could not fetch conviction: ").concat(
                described.as_str(),
            );
            TrustAssessment { trust_level: TrustLevel::Medium, conviction: None, reason }
        },
    }
}

} // verus!
