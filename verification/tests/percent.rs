use iai::percent::percentage_diff;

/// The same percentage, in floating point.
fn reference(new: u64, old: u64) -> String {
    let new = new as f64;
    let old = old as f64;
    let n = ((new - old) / old) * 100.0;
    let n_abs = n.abs();
    let short = if n_abs < 10.0 {
        format!("{:+.6}", n)
    } else if n_abs < 100.0 {
        format!("{:+.5}", n)
    } else if n_abs < 1000.0 {
        format!("{:+.4}", n)
    } else if n_abs < 10000.0 {
        format!("{:+.3}", n)
    } else if n_abs < 100000.0 {
        format!("{:+.2}", n)
    } else if n_abs < 1000000.0 {
        format!("{:+.1}", n)
    } else {
        format!("{:+.0}", n)
    };
    format!(" ({:>+6}%)", short)
}

#[test]
fn percentage_diff_handles_no_change() {
    assert_eq!(percentage_diff(100, 100), " (No change)");
}

#[test]
fn percentage_diff_handles_zero_baseline() {
    assert_eq!(percentage_diff(100, 0), " (N/A)");
}

#[test]
fn percentage_diff_handles_positive_delta() {
    assert!(percentage_diff(110, 100).contains("10.000"));
}

#[test]
fn percentage_diff_handles_negative_delta() {
    assert!(percentage_diff(90, 100).contains("-10.000"));
}

#[test]
fn percentage_diff_agrees_with_floating_point() {
    let mut state: u64 = 0x9e37_79b9_7f4a_7c15;
    let mut next = || {
        state ^= state << 13;
        state ^= state >> 7;
        state ^= state << 17;
        state
    };
    for round in 0..20_000u32 {
        let new = next() >> (next() % 64);
        let old = match round % 3 {
            0 => next() >> (next() % 64),
            1 => new.wrapping_add(next() % 16),
            _ => 1 << (next() % 64),
        };
        if old != 0 && old != new {
            assert_eq!(percentage_diff(new, old), reference(new, old), "{} {}", new, old);
        }
    }
}

#[test]
fn a_zero_baseline_has_no_percentage() {
    assert_eq!(percentage_diff(0, 0), " (N/A)");
    assert_eq!(percentage_diff(1, 0), " (N/A)");
    assert_eq!(percentage_diff(u64::MAX, 0), " (N/A)");
}

#[test]
fn gains_and_losses_differ_in_their_sign_alone() {
    for (gain, loss, old) in [(101, 99, 100), (150, 50, 100), (200, 0, 100), (4, 2, 3)] {
        let gain = percentage_diff(gain, old);
        let loss = percentage_diff(loss, old);
        assert!(gain.starts_with(" (+"));
        assert!(loss.starts_with(" (-"));
        assert_eq!(gain[3..], loss[3..]);
    }
}

#[test]
fn the_sign_shows_the_direction_up_to_the_last_exact_counter() {
    let last = 1u64 << 53;
    assert!(percentage_diff(last - 1, last).starts_with(" (-"));
    assert!(percentage_diff(last, last - 1).starts_with(" (+"));
}

#[test]
fn precision_falls_as_the_change_grows() {
    for (new, old, text) in [
        (1001, 1000, " (+0.100000%)"),
        (110, 100, " (+10.00000%)"),
        (90, 100, " (-10.00000%)"),
        (300, 100, " (+200.0000%)"),
        (2100, 100, " (+2000.000%)"),
        (30100, 100, " (+30000.00%)"),
        (400100, 100, " (+400000.0%)"),
        (5000100, 100, " (+5000000%)"),
        (0, 100, " (-100.0000%)"),
        (1, 3, " (-66.66667%)"),
    ] {
        assert_eq!(percentage_diff(new, old), text);
    }
}

#[test]
fn large_counters_are_rounded_like_floating_point_numbers() {
    assert_eq!(percentage_diff(u64::MAX, u64::MAX - 1), " (+0.000000%)");
    assert_eq!(percentage_diff(u64::MAX - 1, u64::MAX), " (+0.000000%)");
    assert_eq!(percentage_diff(u64::MAX, 1), reference(u64::MAX, 1));
}
