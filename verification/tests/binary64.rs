use aleo_prover_actor::binary64::{interval_rate_hundredths_exec, percent_hundredths_exec, ratio_hundredths_exec};
use std::time::Duration;

fn hundredths_text(h: u128) -> String {
    format!("{}.{:02}", h / 100, h % 100)
}

struct Lcg(u64);

impl Lcg {
    fn next(&mut self) -> u64 {
        self.0 = self.0.wrapping_mul(6364136223846793005).wrapping_add(1442695040888963407);
        self.0 >> 11
    }
}

#[test]
fn quotient_matches_binary64_formatting() {
    for s in 1..=400u64 {
        for n in 0..=2000u64 {
            let expected = format!("{:.2}", n as f64 / s as f64);
            assert_eq!(hundredths_text(interval_rate_hundredths_exec(n, s, 0)), expected, "{} / {}", n, s);
        }
    }
    let mut rng = Lcg(7);
    for _ in 0..200_000 {
        let n = rng.next() % (u32::MAX as u64 + 1);
        let s = 1 + rng.next() % (1u64 << (rng.next() % 53));
        let expected = format!("{:.2}", n as f64 / s as f64);
        assert_eq!(hundredths_text(interval_rate_hundredths_exec(n, s, 0)), expected, "{} / {}", n, s);
    }
}

#[test]
fn quotient_ties_round_as_binary64() {
    // 0.125 is exact and ties to even; 0.015 lies below its binary64 neighbour's half.
    assert_eq!(interval_rate_hundredths_exec(225, 1800, 0), 12);
    assert_eq!(interval_rate_hundredths_exec(27, 1800, 0), 1);
    assert_eq!(interval_rate_hundredths_exec(9, 1800, 0), 1);
    assert_eq!(interval_rate_hundredths_exec(5, u64::MAX, 0), 0);
}

#[test]
fn percentage_matches_binary64_formatting() {
    for t in 1..=600u32 {
        for v in 0..=t {
            let expected = format!("{:.2}", (v as f64 / t as f64) * 100.0);
            assert_eq!(hundredths_text(percent_hundredths_exec(v, t) as u128), expected, "{} of {}", v, t);
        }
    }
    let mut rng = Lcg(11);
    for _ in 0..200_000 {
        let t = 1 + (rng.next() % u32::MAX as u64) as u32;
        let v = (rng.next() % (t as u64 + 1)) as u32;
        let expected = format!("{:.2}", (v as f64 / t as f64) * 100.0);
        assert_eq!(hundredths_text(percent_hundredths_exec(v, t) as u128), expected, "{} of {}", v, t);
    }
    for t in [20000u32, 40000, 200000, 2_000_000_000] {
        for v in [1u32, 3, 7, 9, 11] {
            let expected = format!("{:.2}", (v as f64 / t as f64) * 100.0);
            assert_eq!(hundredths_text(percent_hundredths_exec(v, t) as u128), expected, "{} of {}", v, t);
        }
    }
}

#[test]
fn full_share_is_a_hundred_percent() {
    for t in [1u32, 3, 7, 1000, u32::MAX] {
        assert_eq!(percent_hundredths_exec(t, t), 10000);
    }
}

#[test]
fn rate_over_durations_matches_binary64_formatting() {
    let mut rng = Lcg(23);
    for _ in 0..300_000 {
        let n = rng.next() % (u32::MAX as u64 + 1);
        let secs = match rng.next() % 4 {
            0 => 0,
            1 => rng.next() % 10,
            2 => rng.next() % 100_000,
            _ => rng.next() % (1u64 << (rng.next() % 64)),
        };
        let nanos = match rng.next() % 3 {
            0 => 0,
            1 => (rng.next() % 1000) as u32,
            _ => (rng.next() % 1_000_000_000) as u32,
        };
        if secs == 0 && nanos == 0 {
            continue;
        }
        let expected = format!("{:.2}", n as f64 / Duration::new(secs, nanos).as_secs_f64());
        assert_eq!(hundredths_text(interval_rate_hundredths_exec(n, secs, nanos)), expected, "{} / {}s {}ns", n, secs, nanos);
    }
    for nanos in 1..3000u32 {
        for n in [1u64, 3, 7, 1000, u32::MAX as u64] {
            let expected = format!("{:.2}", n as f64 / Duration::new(0, nanos).as_secs_f64());
            assert_eq!(hundredths_text(interval_rate_hundredths_exec(n, 0, nanos)), expected, "{} / {}ns", n, nanos);
            let expected = format!("{:.2}", n as f64 / Duration::new(1, nanos * 333_333).as_secs_f64());
            assert_eq!(hundredths_text(interval_rate_hundredths_exec(n, 1, nanos * 333_333)), expected);
        }
    }
}

#[test]
fn large_quotients_are_whole_numbers() {
    assert_eq!(ratio_hundredths_exec(1u128 << 60, 1), 100u128 << 60);
    assert_eq!(ratio_hundredths_exec((1u128 << 60) + 1, 1), 100u128 << 60);
    assert_eq!(ratio_hundredths_exec(3, 2), 150);
}

#[test]
fn rate_is_monotone_in_count_and_interval() {
    let mut rng = Lcg(31);
    for _ in 0..20_000 {
        let n1 = rng.next() % (u32::MAX as u64 + 1);
        let n2 = n1 + rng.next() % (u32::MAX as u64 + 1 - n1);
        let secs = 1 + rng.next() % 100_000;
        let nanos = (rng.next() % 1_000_000_000) as u32;
        assert!(interval_rate_hundredths_exec(n1, secs, nanos) <= interval_rate_hundredths_exec(n2, secs, nanos));
        let nanos2 = nanos + (rng.next() % (1_000_000_000 - nanos as u64)) as u32;
        assert!(interval_rate_hundredths_exec(n1, secs, nanos2) <= interval_rate_hundredths_exec(n1, secs, nanos));
        assert!(interval_rate_hundredths_exec(n1, secs + 1, 0) <= interval_rate_hundredths_exec(n1, secs, nanos));
    }
}

#[test]
fn rate_is_monotone_over_subsecond_intervals() {
    let mut rng = Lcg(47);
    for _ in 0..20_000 {
        let n1 = rng.next() % (u32::MAX as u64 + 1);
        let n2 = n1 + rng.next() % (u32::MAX as u64 + 1 - n1);
        let nanos = 1 + (rng.next() % 999_999_999) as u32;
        assert!(interval_rate_hundredths_exec(n1, 0, nanos) <= interval_rate_hundredths_exec(n2, 0, nanos));
        let nanos2 = nanos + (rng.next() % (1_000_000_000 - nanos as u64)) as u32;
        assert!(interval_rate_hundredths_exec(n1, 0, nanos2) <= interval_rate_hundredths_exec(n1, 0, nanos));
        assert!(interval_rate_hundredths_exec(n1, 1, 0) <= interval_rate_hundredths_exec(n1, 0, nanos));
    }
}
