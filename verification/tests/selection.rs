//! End-to-end selection scenarios through the master's state machine:
//! single winner, all-zero replies, threshold winners, slow-source
//! broadcast, and the deferred batch for a throttled slow driver.

use coop_fuzz_master::master::{Master, METRIC_PORT_START};
use coop_fuzz_master::messages::{InterestingInput, RepMetric};
use coop_fuzz_master::metric::{Metric, METRIC_ZERO_RANK};

/// Order-preserving rank encoding of a scalar reply; zero maps exactly
/// to the zero rank.
fn metric(x: f64) -> Metric {
    let x = if x == 0.0 { 0.0 } else { x };
    let b = x.to_bits();
    let rank = if b & 0x8000_0000_0000_0000 == 0 { b | 0x8000_0000_0000_0000 } else { !b };
    Metric { rank }
}

fn rep(x: f64) -> RepMetric {
    RepMetric { metric: metric(x) }
}

fn input_from(id: &str) -> InterestingInput {
    InterestingInput {
        fuzzer_id: id.to_string(),
        input_path: "/w/in".to_string(),
        coverage_path: "/w/cov".to_string(),
    }
}

fn master_of(ids: &[(&str, &str)], prefer_high: bool, threshold: Option<f64>) -> Master {
    let fuzzer_ids: Vec<String> = ids.iter().map(|p| p.0.to_string()).collect();
    let conf_files: Vec<String> =
        ids.iter().map(|p| format!("{}.{}.conf", p.0, p.1)).collect();
    Master::from_args(
        fuzzer_ids,
        prefer_high,
        threshold.map(metric),
        true,
        vec!["/bin/true".to_string()],
        conf_files,
        "./work".to_string(),
    )
    .unwrap()
}

#[test]
fn zero_rank_constant_matches_encoding() {
    assert_eq!(metric(0.0).rank, METRIC_ZERO_RANK);
    assert_eq!(metric(-0.0).rank, METRIC_ZERO_RANK);
    assert!(metric(0.3).rank < metric(0.7).rank);
    assert!(metric(-1.5).rank < metric(0.0).rank);
}

#[test]
fn single_winner_prefer_low_three_fast_drivers() {
    let mut m = master_of(&[("aa", "afl"), ("bb", "hongg"), ("cc", "afl")], false, None);
    let input = input_from("aa");
    let line = m.log_interesting(&input, 5);
    assert_eq!(line, "5,aa,/w/in,/w/cov\n");
    let metrics = vec![(1usize, rep(0.7)), (2usize, rep(0.3))];
    let outcome = m.process_interesting(input, &metrics, 5);
    assert_eq!(outcome.winners, vec!["cc".to_string()]);
    assert_eq!(outcome.winning_line.unwrap(), "5,aa,cc\n");
    assert_eq!(outcome.use_input.unwrap().to_string(), "A cc /w/in /w/cov");
}

#[test]
fn single_winner_all_zero_metrics_yields_nobody() {
    let mut m = master_of(&[("aa", "afl"), ("bb", "hongg"), ("cc", "afl")], true, None);
    let input = input_from("aa");
    m.log_interesting(&input, 3);
    let metrics = vec![(1usize, rep(0.0)), (2usize, rep(0.0))];
    let outcome = m.process_interesting(input, &metrics, 3);
    assert!(outcome.winners.is_empty());
    assert!(outcome.winning_line.is_none());
    assert!(outcome.use_input.is_none());
}

#[test]
fn multiple_winners_above_threshold() {
    let mut m = master_of(
        &[("aa", "afl"), ("bb", "hongg"), ("cc", "afl"), ("dd", "hongg")],
        true,
        Some(0.5),
    );
    let input = input_from("aa");
    m.log_interesting(&input, 9);
    let metrics = vec![(1usize, rep(0.8)), (2usize, rep(0.6)), (3usize, rep(0.2))];
    let outcome = m.process_interesting(input, &metrics, 9);
    assert_eq!(outcome.winners, vec!["bb".to_string(), "cc".to_string()]);
    assert_eq!(outcome.winning_line.unwrap(), "9,aa,bb_cc\n");
    assert_eq!(outcome.use_input.unwrap().to_string(), "A bb_cc /w/in /w/cov");
}

#[test]
fn slow_source_broadcasts_to_nonzero_peers() {
    let mut m = master_of(&[("vv", "vu"), ("aa", "afl"), ("bb", "hongg")], false, None);
    let input = input_from("vv");
    m.log_interesting(&input, 4);
    let metrics = vec![(1usize, rep(0.4)), (2usize, rep(0.0))];
    let outcome = m.process_interesting(input, &metrics, 4);
    assert_eq!(outcome.winners, vec!["aa".to_string()]);
    assert_eq!(outcome.winning_line.unwrap(), "4,vv,aa\n");
    assert_eq!(outcome.use_input.unwrap().to_string(), "A aa /w/in /w/cov");
}

#[test]
fn slow_driver_throttled_batch() {
    let mut m = master_of(&[("aa", "afl"), ("vv", "vu")], false, None);
    // Three fast inputs from aa; vv's replies accumulate as candidates.
    for (t, reply) in [(1u64, 0.9), (2u64, 0.2), (3u64, 0.5)] {
        let input = input_from("aa");
        m.log_interesting(&input, t);
        let metrics = vec![(1usize, rep(reply))];
        let outcome = m.process_interesting(input, &metrics, t);
        // The only peer is slow, so no immediate winner under the strategy.
        assert!(outcome.winners.is_empty());
    }
    // Not ready yet: nothing is dispatched.
    assert!(m.dispatch_ready(0, 10).is_none());
    // Two stats-file modifications arm the watch.
    m.on_watch_event(0, "stats.log");
    assert!(m.dispatch_ready(0, 10).is_none());
    m.on_watch_event(0, "other.file");
    assert!(m.dispatch_ready(0, 10).is_none());
    m.on_watch_event(0, "stats.log");
    let (u, line) = m.dispatch_ready(0, 10).unwrap();
    // Prefer-low picks the 0.2 candidate; the batch targets vv alone.
    assert_eq!(line, "10,aa,vv\n");
    assert_eq!(u.to_string(), "A vv /w/in /w/cov");
    // The batch was cleared and the flag disarmed.
    assert!(m.dispatch_ready(0, 11).is_none());
}

#[test]
fn ports_are_handed_out_in_registration_order() {
    let m = master_of(&[("aa", "afl"), ("bb", "hongg")], false, None);
    let mut ports: Vec<u32> = m.drivers.iter().map(|d| d.get_metric_port()).collect();
    ports.sort();
    assert_eq!(ports, vec![METRIC_PORT_START, METRIC_PORT_START + 1]);
}

#[test]
fn from_args_rejects_bad_configurations() {
    let sut = vec!["/bin/true".to_string()];
    // Fewer than two ids.
    assert!(Master::from_args(
        vec!["aa".to_string()],
        false,
        None,
        true,
        sut.clone(),
        vec!["aa.afl.conf".to_string()],
        "./work".to_string(),
    )
    .is_err());
    // No system under test.
    assert!(Master::from_args(
        vec!["aa".to_string(), "bb".to_string()],
        false,
        None,
        true,
        Vec::new(),
        vec!["aa.afl.conf".to_string(), "bb.hongg.conf".to_string()],
        "./work".to_string(),
    )
    .is_err());
    // Missing conf file for bb.
    assert!(Master::from_args(
        vec!["aa".to_string(), "bb".to_string()],
        false,
        None,
        true,
        sut.clone(),
        vec!["aa.afl.conf".to_string()],
        "./work".to_string(),
    )
    .is_err());
    // Conf name without a variant token.
    assert!(Master::from_args(
        vec!["aa".to_string(), "bb".to_string()],
        false,
        None,
        true,
        sut.clone(),
        vec!["aa.afl.conf".to_string(), "bb.conf".to_string()],
        "./work".to_string(),
    )
    .is_err());
    // Unknown variant token.
    assert!(Master::from_args(
        vec!["aa".to_string(), "bb".to_string()],
        false,
        None,
        true,
        sut,
        vec!["aa.afl.conf".to_string(), "bb.xyz.conf".to_string()],
        "./work".to_string(),
    )
    .is_err());
}

#[test]
fn watch_event_threshold_is_two() {
    let mut m = master_of(&[("aa", "afl"), ("vv", "vu")], false, None);
    assert_eq!(m.watches.len(), 1);
    assert_eq!(m.watches[0].fuzzer_id, "vv");
    assert!(!m.watches[0].ready);
    m.on_watch_event(0, "stats.log");
    assert_eq!(m.watches[0].modified, 1);
    assert!(!m.watches[0].ready);
    m.on_watch_event(0, "stats.log");
    assert_eq!(m.watches[0].modified, 2);
    assert!(m.watches[0].ready);
}
