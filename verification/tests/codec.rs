//! The wire codec: parse/serialize round trips, the malformed-message
//! errors, and the publish topic prefix.

use coop_fuzz_master::messages::{InterestingInput, ReqMetric};

fn sample() -> InterestingInput {
    InterestingInput {
        fuzzer_id: "aa".to_string(),
        input_path: "/tmp/in/id:000042".to_string(),
        coverage_path: "/tmp/cov/id:000042.coverage".to_string(),
    }
}

#[test]
fn interesting_serializes_with_spaces() {
    let m = sample();
    assert_eq!(m.to_string(), "aa /tmp/in/id:000042 /tmp/cov/id:000042.coverage");
}

#[test]
fn interesting_round_trip() {
    let m = sample();
    let parsed = InterestingInput::from_str(m.to_string().as_str()).unwrap();
    assert_eq!(parsed.fuzzer_id, m.fuzzer_id);
    assert_eq!(parsed.input_path, m.input_path);
    assert_eq!(parsed.coverage_path, m.coverage_path);
}

#[test]
fn interesting_parse_takes_first_three_tokens() {
    let parsed = InterestingInput::from_str("x /a /b extra tokens").unwrap();
    assert_eq!(parsed.fuzzer_id, "x");
    assert_eq!(parsed.input_path, "/a");
    assert_eq!(parsed.coverage_path, "/b");
}

#[test]
fn interesting_parse_fails_on_missing_fields() {
    assert!(InterestingInput::from_str("only_one_token").is_err());
    assert!(InterestingInput::from_str("two tokens").is_err());
    assert!(InterestingInput::from_str("").is_err());
}

#[test]
fn use_input_starts_with_topic() {
    let m = sample();
    let ids = vec!["bb".to_string(), "cc".to_string()];
    let u = m.use_for(&ids);
    let wire = u.to_string();
    assert!(wire.starts_with("A "));
    assert_eq!(wire, "A bb_cc /tmp/in/id:000042 /tmp/cov/id:000042.coverage");
}

#[test]
fn use_input_single_winner_wire() {
    let m = sample();
    let ids = vec!["cc".to_string()];
    let wire = m.use_for(&ids).to_string();
    assert_eq!(wire, "A cc /tmp/in/id:000042 /tmp/cov/id:000042.coverage");
}

#[test]
fn req_metric_is_bare_path() {
    let q = ReqMetric { coverage_path: "/tmp/cov/x".to_string() };
    assert_eq!(q.to_string(), "/tmp/cov/x");
}
