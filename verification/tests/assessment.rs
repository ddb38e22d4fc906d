use solder_cortex::binary64::Binary64;
use solder_cortex::source::{check_body, check_response, ConvictionScore, FetchFailure, HttpStatus};
use solder_cortex::trust::{assess_reasoning_trust, describe_score, TrustAssessment, TrustLevel};

fn number(x: f64) -> Binary64 {
    Binary64::from_bits(x.to_bits())
}

fn conviction(score: f64, defi: f64, prediction: f64) -> ConvictionScore {
    ConvictionScore {
        wallet: String::from("7VfCXTUXx5WJV5JADk17DUJ4ksgau7utNKj4b963voxs"),
        score: number(score),
        defi_activity: number(defi),
        prediction_market_activity: number(prediction),
        cross_domain_correlation: number(0.25),
    }
}

fn failures() -> Vec<FetchFailure> {
    vec![
        FetchFailure::Transport(String::from("error sending request")),
        FetchFailure::Status(HttpStatus::new(404).unwrap()),
        FetchFailure::Status(HttpStatus::new(500).unwrap()),
        FetchFailure::Decode(String::from("error decoding response body")),
    ]
}

#[test]
fn a_high_score_is_trusted_and_shown() {
    let fetched = conviction(0.95, 0.7, 0.6);
    let assessment = assess_reasoning_trust(Ok(fetched.clone()));
    assert_eq!(assessment.trust_level, TrustLevel::High);
    assert_eq!(assessment.reason, "Conviction score: 0.95 (DeFi: 0.70, Prediction: 0.60)");
    assert_eq!(assessment.conviction, Some(fetched));
}

#[test]
fn a_score_of_a_half_is_medium() {
    let assessment = assess_reasoning_trust(Ok(conviction(0.5, 0.2, 0.9)));
    assert_eq!(assessment.trust_level, TrustLevel::Medium);
    assert_eq!(assessment.reason, "Conviction score: 0.50 (DeFi: 0.20, Prediction: 0.90)");
    assert!(assessment.conviction.is_some());
}

#[test]
fn a_score_of_a_tenth_is_low() {
    let assessment = assess_reasoning_trust(Ok(conviction(0.1, 0.0, 0.05)));
    assert_eq!(assessment.trust_level, TrustLevel::Low);
    assert_eq!(assessment.reason, "Conviction score: 0.10 (DeFi: 0.00, Prediction: 0.05)");
    assert!(assessment.conviction.is_some());
}

#[test]
fn the_level_goes_by_the_score_and_not_by_its_text() {
    let assessment = assess_reasoning_trust(Ok(conviction(0.7999, 1.0, 1.0)));
    assert_eq!(assessment.trust_level, TrustLevel::Medium);
    assert_eq!(assessment.reason, "Conviction score: 0.80 (DeFi: 1.00, Prediction: 1.00)");
    let assessment = assess_reasoning_trust(Ok(conviction(0.3999, 1.0, 1.0)));
    assert_eq!(assessment.trust_level, TrustLevel::Low);
    assert_eq!(assessment.reason, "Conviction score: 0.40 (DeFi: 1.00, Prediction: 1.00)");
}

#[test]
fn a_transport_failure_is_medium_without_conviction() {
    let failure = FetchFailure::Transport(String::from("dns error: no such host"));
    let assessment = assess_reasoning_trust(Err(failure));
    assert_eq!(assessment.trust_level, TrustLevel::Medium);
    assert!(assessment.conviction.is_none());
    assert!(assessment.reason.contains("dns error: no such host"));
    assert_eq!(
        assessment.reason,
        "Could not fetch conviction: Request failed: dns error: no such host"
    );
}

#[test]
fn every_kind_of_failure_is_medium_without_conviction() {
    for failure in failures() {
        let assessment = assess_reasoning_trust(Err(failure.clone()));
        assert_eq!(assessment.trust_level, TrustLevel::Medium);
        assert_eq!(assessment.conviction, None);
        assert_eq!(
            assessment.reason,
            format!("Could not fetch conviction: {}", failure.message())
        );
    }
}

#[test]
fn the_kinds_of_failure_can_be_told_apart() {
    let reasons: Vec<String> =
        failures().into_iter().map(|failure| assess_reasoning_trust(Err(failure)).reason).collect();
    assert_eq!(reasons[0], "Could not fetch conviction: Request failed: error sending request");
    assert_eq!(reasons[1], "Could not fetch conviction: API error: 404 Not Found");
    assert_eq!(reasons[2], "Could not fetch conviction: API error: 500 Internal Server Error");
    assert_eq!(reasons[3], "Could not fetch conviction: Parse error: error decoding response body");
}

#[test]
fn a_fetch_step_by_step() {
    let refused = check_response(Ok((HttpStatus::new(429).unwrap(), "slow down")));
    let assessment = assess_reasoning_trust(refused.map(|_| conviction(0.9, 0.9, 0.9)));
    assert_eq!(assessment.trust_level, TrustLevel::Medium);
    assert_eq!(assessment.reason, "Could not fetch conviction: API error: 429 Too Many Requests");

    let body = check_response(Ok((HttpStatus::new(200).unwrap(), conviction(0.9, 0.9, 0.9))));
    let assessment = assess_reasoning_trust(body.and_then(|decoded| check_body(Ok(decoded))));
    assert_eq!(assessment.trust_level, TrustLevel::High);
    assert_eq!(assessment.conviction, Some(conviction(0.9, 0.9, 0.9)));
}

#[test]
fn a_score_that_is_no_number() {
    let assessment = assess_reasoning_trust(Ok(conviction(f64::NAN, f64::INFINITY, -0.0)));
    assert_eq!(assessment.trust_level, TrustLevel::Low);
    assert_eq!(assessment.reason, "Conviction score: NaN (DeFi: inf, Prediction: -0.00)");
}

#[test]
fn the_reason_is_the_formatted_summary() {
    for (score, defi, prediction) in
        [(0.95, 0.7, 0.6), (0.125, 0.375, 0.625), (1.0, 0.0, 0.999), (123.456, -1.005, 1e10)]
    {
        assert_eq!(
            describe_score(&conviction(score, defi, prediction)),
            format!(
                "Conviction score: {:.2} (DeFi: {:.2}, Prediction: {:.2})",
                score, defi, prediction
            )
        );
    }
}

#[test]
fn an_assessment_equals_itself_field_for_field() {
    let first = assess_reasoning_trust(Ok(conviction(0.95, 0.7, 0.6)));
    let second = TrustAssessment {
        trust_level: first.trust_level,
        conviction: first.conviction.clone(),
        reason: first.reason.clone(),
    };
    assert_eq!(first, second);
    assert_eq!(first.clone(), first);
}
