use aleo_prover_actor::statistic::{Interval, Statistic, StatisticAction, StatisticMsg};
use std::time::Duration;

fn logged(action: StatisticAction<u8>) -> String {
    match action {
        StatisticAction::Log(line) => line,
        _ => panic!("expected a log line"),
    }
}

#[test]
fn new_statistic_is_empty() {
    let s = Statistic::new();
    assert_eq!(s.prove_count(), 0);
    assert_eq!(s.prove_weight_valid(), 0);
    assert_eq!(s.prove_weight_invalid(), 0);
    assert_eq!(s.submit_valid_count(), 0);
    assert_eq!(s.submit_invalid_count(), 0);
    for i in 0..100 {
        assert_eq!(s.recorded_count(i), 0);
    }
    let d = Statistic::default();
    assert_eq!(d.prove_count(), 0);
}

#[test]
fn proofs_are_counted_with_their_weight() {
    let mut s = Statistic::new();
    assert!(matches!(s.handle(StatisticMsg::<u8>::Prove(true, 5)), StatisticAction::Nothing));
    assert!(matches!(s.handle(StatisticMsg::<u8>::Prove(false, 3)), StatisticAction::Nothing));
    assert!(matches!(s.handle(StatisticMsg::<u8>::Prove(true, 7)), StatisticAction::Nothing));
    assert_eq!(s.prove_count(), 3);
    assert_eq!(s.prove_weight_valid(), 12);
    assert_eq!(s.prove_weight_invalid(), 3);
    assert_eq!(s.submit_valid_count(), 0);
}

#[test]
fn share_results_are_reported_in_colour() {
    let mut s = Statistic::new();
    let line = logged(s.handle(StatisticMsg::SubmitResult(true, Some("well done".to_string()))));
    assert_eq!(line, "\x1b[32mShare accepted: well done 1 / 1 (100.00%)\x1b[0m");
    let line = logged(s.handle(StatisticMsg::SubmitResult(false, None)));
    assert_eq!(line, "\x1b[31mShare rejected 1 / 2 (50.00%)\x1b[0m");
    let line = logged(s.handle(StatisticMsg::SubmitResult(false, Some("stale".to_string()))));
    assert_eq!(line, "\x1b[31mShare rejected: stale 1 / 3 (33.33%)\x1b[0m");
    let line = logged(s.handle(StatisticMsg::SubmitResult(true, None)));
    assert_eq!(line, "\x1b[32mShare accepted 2 / 4 (50.00%)\x1b[0m");
    let line = logged(s.handle(StatisticMsg::SubmitResult(true, None)));
    assert_eq!(line, "\x1b[32mShare accepted 3 / 5 (60.00%)\x1b[0m");
    assert_eq!(s.submit_valid_count(), 3);
    assert_eq!(s.submit_invalid_count(), 2);
}

#[test]
fn share_percentage_rounds_to_hundredths() {
    let mut s = Statistic::new();
    let _ = s.handle(StatisticMsg::<u8>::SubmitResult(true, None));
    let line = logged(s.handle(StatisticMsg::SubmitResult(true, None)));
    assert!(line.ends_with("2 / 2 (100.00%)\x1b[0m"));
    let line = logged(s.handle(StatisticMsg::SubmitResult(false, None)));
    assert!(line.ends_with("2 / 3 (66.67%)\x1b[0m"), "{}", line);
}

#[test]
fn report_gives_rates_over_the_windows() {
    let mut s = Statistic::new();
    for _ in 0..3 {
        let _ = s.handle(StatisticMsg::<u8>::Prove(true, 1));
    }
    let line = logged(s.handle(StatisticMsg::Report));
    assert_eq!(
        line,
        "\x1b[36mTotal proofs: 3 (1m: 0.05 p/s, 5m: 0.01 p/s, 15m: 0.00 p/s, 30m: 0.00 p/s, 60m: 0.00 p/s)\x1b[0m"
    );
    assert_eq!(s.recorded_count(0), 3);
    assert_eq!(s.recorded_count(1), 0);
    for _ in 0..120 {
        let _ = s.handle(StatisticMsg::<u8>::Prove(true, 1));
    }
    let line = logged(s.handle(StatisticMsg::Report));
    assert_eq!(
        line,
        "\x1b[36mTotal proofs: 123 (1m: 2.00 p/s, 5m: 0.41 p/s, 15m: 0.14 p/s, 30m: 0.07 p/s, 60m: 0.03 p/s)\x1b[0m"
    );
    assert_eq!(s.recorded_count(0), 123);
    assert_eq!(s.recorded_count(1), 3);
}

#[test]
fn report_history_shifts_by_one_each_report() {
    let mut s = Statistic::new();
    for k in 1..=70u32 {
        let _ = s.handle(StatisticMsg::<u8>::Prove(true, 1));
        let _ = s.handle(StatisticMsg::<u8>::Report);
        assert_eq!(s.recorded_count(0), k);
    }
    assert_eq!(s.recorded_count(4), 66);
    assert_eq!(s.recorded_count(59), 11);
    let line = logged(s.handle(StatisticMsg::Report));
    // 70 proofs, windows 70-70, 70-66, 70-61, 70-41, 70-11
    assert_eq!(
        line,
        "\x1b[36mTotal proofs: 70 (1m: 0.00 p/s, 5m: 0.01 p/s, 15m: 0.01 p/s, 30m: 0.02 p/s, 60m: 0.02 p/s)\x1b[0m"
    );
}

#[test]
fn exit_is_acknowledged() {
    let mut s = Statistic::new();
    match s.handle(StatisticMsg::Exit(42u8)) {
        StatisticAction::AckExit(r) => assert_eq!(r, 42),
        _ => panic!("expected an acknowledgement"),
    }
    assert_eq!(s.prove_count(), 0);
}

#[test]
fn overflowing_weights_are_not_admitted() {
    let mut s = Statistic::new();
    let _ = s.handle(StatisticMsg::<u8>::Prove(true, u32::MAX));
    assert!(!s.admits(&StatisticMsg::<u8>::Prove(true, 1)));
    assert!(s.admits(&StatisticMsg::<u8>::Prove(false, 1)));
    assert!(s.admits(&StatisticMsg::<u8>::Report));
    assert!(s.admits(&StatisticMsg::<u8>::SubmitResult(true, None)));
}

#[test]
fn proof_rate_matches_float_rendering() {
    let mut s = Statistic::new();
    for _ in 0..4000 {
        let _ = s.handle(StatisticMsg::<u8>::Prove(false, 0));
    }
    for secs in [1u64, 7, 60, 300, 900, 1800, 3600] {
        for past in 0..=4000u32 {
            let n = 4000 - past as u64;
            let expected = format!("{:.2}", n as f64 / secs as f64);
            assert_eq!(s.calculate_proof_rate(past, Interval::from_secs(secs)), expected, "{} over {}", n, secs);
        }
    }
}

#[test]
fn proof_rate_edge_cases() {
    let mut s = Statistic::new();
    assert_eq!(s.calculate_proof_rate(0, Interval::from_secs(0)), "NaN");
    assert_eq!(format!("{:.2}", 0f64 / 0f64), "NaN");
    assert_eq!(format!("{:.2}", 1f64 / 0f64), "inf");
    assert_eq!(s.calculate_proof_rate(0, Interval::from_secs(60)), "0.00");
    for _ in 0..90 {
        let _ = s.handle(StatisticMsg::<u8>::Prove(true, 1));
    }
    assert_eq!(s.calculate_proof_rate(0, Interval::from_secs(0)), "inf");
    assert_eq!(s.calculate_proof_rate(0, Interval::from_secs(60)), "1.50");
    assert_eq!(s.calculate_proof_rate(90, Interval::from_secs(60)), "0.00");
    assert_eq!(s.calculate_proof_rate(0, Interval::from_secs(1)), "90.00");
    assert_eq!(s.calculate_proof_rate(89, Interval::from_secs(3)), "0.33");
    assert_eq!(s.calculate_proof_rate(88, Interval::from_secs(3)), "0.67");
}

#[test]
fn proof_rate_over_fractional_seconds() {
    let mut s = Statistic::new();
    for _ in 0..7 {
        let _ = s.handle(StatisticMsg::<u8>::Prove(true, 1));
    }
    assert_eq!(s.calculate_proof_rate(5, Interval { secs: 1, nanos: 500_000_000 }), "1.33");
    assert_eq!(s.calculate_proof_rate(0, Interval { secs: 0, nanos: 1 }), "7000000000.00");
    assert_eq!(s.calculate_proof_rate(0, Interval { secs: 0, nanos: 250_000_000 }), "28.00");
    for (secs, nanos) in [(0u64, 3u32), (2, 999_999_999), (59, 123_456_789), (1 << 40, 7)] {
        let d = Duration::new(secs, nanos);
        let expected = format!("{:.2}", 7.0 / d.as_secs_f64());
        assert_eq!(s.calculate_proof_rate(0, Interval { secs, nanos }), expected);
    }
}

#[test]
fn proof_rate_rises_with_count_and_falls_with_past_and_interval() {
    let mut fewer = Statistic::new();
    let mut more = Statistic::new();
    for _ in 0..12 {
        let _ = fewer.handle(StatisticMsg::<u8>::Prove(true, 1));
    }
    for _ in 0..30 {
        let _ = more.handle(StatisticMsg::<u8>::Prove(true, 1));
    }
    let cases = [
        (5u32, Interval { secs: 2, nanos: 0 }, 3u32, Interval { secs: 0, nanos: 700_000_000 }),
        (0, Interval { secs: 60, nanos: 0 }, 0, Interval { secs: 60, nanos: 0 }),
        (12, Interval { secs: 1, nanos: 0 }, 0, Interval { secs: 1, nanos: 0 }),
        (2, Interval { secs: 0, nanos: 900_000_000 }, 1, Interval { secs: 0, nanos: 300_000_000 }),
    ];
    for (past1, interval1, past2, interval2) in cases {
        let low: f64 = fewer.calculate_proof_rate(past1, interval1).parse().unwrap();
        let high: f64 = more.calculate_proof_rate(past2, interval2).parse().unwrap();
        assert!(low <= high, "{} > {}", low, high);
    }
    assert_eq!(fewer.calculate_proof_rate(5, Interval { secs: 2, nanos: 0 }), "3.50");
    assert_eq!(more.calculate_proof_rate(3, Interval { secs: 0, nanos: 700_000_000 }), "38.57");
}
