use echonet::metric::{checked_noise_metric, noise_metric, MAX_RAW};

#[test]
fn metric_of_silence_is_zero() {
    assert_eq!(noise_metric(MAX_RAW), 0);
}

#[test]
fn metric_of_loudest_is_full_scale() {
    assert_eq!(noise_metric(0), 255);
}

#[test]
fn metric_of_midpoint_rounds_down() {
    // (950 - 475) * 255 / 950 = 121125 / 950 = 127.5
    assert_eq!(noise_metric(475), 127);
}

#[test]
fn metric_matches_formula_over_whole_range() {
    for raw in 0..=MAX_RAW {
        let expected = (950u32 - raw as u32) * 255 / 950;
        assert!(expected <= 255);
        assert_eq!(noise_metric(raw) as u32, expected, "raw {}", raw);
        assert_eq!(checked_noise_metric(raw), Some(expected as u8));
    }
}

#[test]
fn metric_never_increases_with_raw() {
    let mut previous = noise_metric(0);
    for raw in 1..=MAX_RAW {
        let current = noise_metric(raw);
        assert!(current <= previous, "raw {}", raw);
        previous = current;
    }
}

#[test]
fn metric_exact_values() {
    assert_eq!(noise_metric(1), 254);
    assert_eq!(noise_metric(3), 254);
    assert_eq!(noise_metric(4), 253);
    assert_eq!(noise_metric(949), 0);
    assert_eq!(noise_metric(946), 1);
    assert_eq!(noise_metric(100), 228);
}

#[test]
fn metric_of_out_of_range_is_refused() {
    assert_eq!(checked_noise_metric(951), None);
    assert_eq!(checked_noise_metric(u16::MAX), None);
    assert_eq!(checked_noise_metric(950), Some(0));
    assert_eq!(checked_noise_metric(0), Some(255));
}
