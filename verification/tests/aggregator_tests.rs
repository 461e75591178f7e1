use echonet::aggregator::{Aggregator, WindowReport, SEND_INTERVAL_MICROS};
use echonet::window::HEAP_CAPACITY;

fn feed(aggregator: &mut Aggregator, events: &[(u16, u64)]) -> Vec<WindowReport> {
    let mut reports = Vec::new();
    for (raw, now) in events {
        aggregator.accumulate(*raw);
        if let Some(report) = aggregator.poll(*now) {
            reports.push(report);
        }
    }
    reports
}

fn readings(len: usize, seed: u32, start: u64, step: u64) -> Vec<(u16, u64)> {
    let mut seed = seed;
    let mut events = Vec::new();
    for i in 0..len {
        seed = seed.wrapping_mul(1103515245).wrapping_add(12345);
        let raw = ((seed >> 16) % 951) as u16;
        events.push((raw, start + step * i as u64));
    }
    events
}

#[test]
fn send_interval_is_one_second() {
    assert_eq!(SEND_INTERVAL_MICROS, 1_000_000);
}

#[test]
fn new_aggregator_opens_an_empty_window() {
    let aggregator = Aggregator::new(123);
    assert_eq!(aggregator.len(), 0);
    assert_eq!(aggregator.opened_at(), 123);
}

#[test]
fn accumulate_takes_in_range_readings() {
    let mut aggregator = Aggregator::new(0);
    assert!(aggregator.accumulate(0));
    assert!(aggregator.accumulate(950));
    assert_eq!(aggregator.len(), 2);
}

#[test]
fn accumulate_refuses_out_of_range_readings() {
    let mut aggregator = Aggregator::new(0);
    assert!(!aggregator.accumulate(951));
    assert!(!aggregator.accumulate(4095));
    assert_eq!(aggregator.len(), 0);
    assert!(aggregator.accumulate(1));
    assert_eq!(aggregator.len(), 1);
}

#[test]
fn window_is_due_after_exactly_one_interval() {
    let aggregator = Aggregator::new(500);
    assert!(!aggregator.is_due(500));
    assert!(!aggregator.is_due(1_000_499));
    assert!(aggregator.is_due(1_000_500));
    assert!(aggregator.is_due(u64::MAX));
}

#[test]
fn clock_set_back_is_no_time_passed() {
    let mut aggregator = Aggregator::new(5_000_000);
    aggregator.accumulate(10);
    assert!(!aggregator.is_due(0));
    assert!(!aggregator.is_due(4_999_999));
    assert_eq!(aggregator.poll(3_000_000), None);
    assert_eq!(aggregator.len(), 1);
    assert_eq!(aggregator.opened_at(), 5_000_000);
}

#[test]
fn poll_before_the_interval_changes_nothing() {
    let mut aggregator = Aggregator::new(0);
    for _ in 0..30 {
        aggregator.accumulate(0);
    }
    assert_eq!(aggregator.poll(999_999), None);
    assert_eq!(aggregator.len(), 30);
    assert_eq!(aggregator.opened_at(), 0);
}

#[test]
fn poll_at_the_interval_reports_and_reopens() {
    let mut aggregator = Aggregator::new(0);
    for _ in 0..30 {
        aggregator.accumulate(0);
    }
    let report = aggregator.poll(1_000_000);
    assert_eq!(
        report,
        Some(WindowReport { samples: 30, over_capacity: false, result: Some(255) })
    );
    assert_eq!(aggregator.len(), 0);
    assert_eq!(aggregator.opened_at(), 1_000_000);
    assert_eq!(aggregator.poll(1_999_999), None);
}

#[test]
fn nothing_is_carried_into_the_next_window() {
    let mut aggregator = Aggregator::new(0);
    for _ in 0..40 {
        aggregator.accumulate(0);
    }
    assert_eq!(aggregator.poll(1_000_000).unwrap().result, Some(255));
    for _ in 0..40 {
        aggregator.accumulate(950);
    }
    assert_eq!(
        aggregator.poll(2_000_000),
        Some(WindowReport { samples: 40, over_capacity: false, result: Some(0) })
    );
}

#[test]
fn close_reports_whatever_the_age() {
    let mut aggregator = Aggregator::new(0);
    for raw in 0..100u16 {
        aggregator.accumulate(raw);
    }
    let report = aggregator.close(7);
    // the five loudest are raw 0..=4: metrics 255, 254, 254, 254, 253
    assert_eq!(report, WindowReport { samples: 100, over_capacity: false, result: Some(254) });
    assert_eq!(aggregator.len(), 0);
    assert_eq!(aggregator.opened_at(), 7);
}

#[test]
fn window_with_twenty_readings_reports_its_maximum() {
    let mut aggregator = Aggregator::new(0);
    for raw in 100..120u16 {
        aggregator.accumulate(raw);
    }
    let report = aggregator.close(1);
    assert_eq!(report.samples, 20);
    assert_eq!(report.result, Some(228));
}

#[test]
fn window_with_nineteen_readings_is_dropped_unreported() {
    let mut aggregator = Aggregator::new(0);
    for raw in 100..119u16 {
        aggregator.accumulate(raw);
    }
    let report = aggregator.poll(1_000_000);
    assert_eq!(report, Some(WindowReport { samples: 19, over_capacity: false, result: None }));
    assert_eq!(aggregator.len(), 0);
    assert_eq!(aggregator.opened_at(), 1_000_000);
}

#[test]
fn empty_window_is_dropped_unreported() {
    let mut aggregator = Aggregator::new(0);
    assert_eq!(
        aggregator.poll(2_000_000),
        Some(WindowReport { samples: 0, over_capacity: false, result: None })
    );
}

#[test]
fn overflowing_window_warns_once_and_loses_nothing() {
    let mut aggregator = Aggregator::new(0);
    let len = HEAP_CAPACITY + 1;
    let mut warnings = 0;
    let mut reports = 0;
    for i in 0..len {
        assert!(aggregator.accumulate((i % 951) as u16));
        if let Some(report) = aggregator.poll(i as u64) {
            reports += 1;
            if report.over_capacity {
                warnings += 1;
            }
        }
    }
    assert_eq!(reports, 0);
    assert_eq!(aggregator.len(), len);
    let report = aggregator.poll(1_000_000).unwrap();
    assert_eq!(report.samples, len);
    assert!(report.over_capacity);
    // the 900 loudest are raw 0..=46, nineteen times each, and seven of raw 47
    assert_eq!(report.result, Some(248));
    warnings += 1;
    for i in 0..100u64 {
        aggregator.accumulate(0);
        if let Some(report) = aggregator.poll(1_000_000 + i) {
            if report.over_capacity {
                warnings += 1;
            }
        }
    }
    let next = aggregator.poll(2_000_000).unwrap();
    assert_eq!(next, WindowReport { samples: 100, over_capacity: false, result: Some(255) });
    assert_eq!(warnings, 1);
}

#[test]
fn window_at_capacity_does_not_warn() {
    let mut aggregator = Aggregator::new(0);
    for _ in 0..HEAP_CAPACITY {
        aggregator.accumulate(950);
    }
    let report = aggregator.close(1);
    assert_eq!(report, WindowReport { samples: HEAP_CAPACITY, over_capacity: false, result: Some(0) });
}

#[test]
fn two_runs_on_the_same_readings_agree() {
    let events = readings(60_000, 99, 17, 100);
    let mut first = Aggregator::new(0);
    let mut second = Aggregator::new(0);
    let a = feed(&mut first, &events);
    let b = feed(&mut second, &events);
    assert_eq!(a.len(), 5);
    assert_eq!(a, b);
    assert_eq!(first.len(), second.len());
    assert_eq!(first.opened_at(), second.opened_at());
}

#[test]
fn order_within_a_window_does_not_matter() {
    let mut events = readings(5000, 7, 0, 10);
    let mut forward = Aggregator::new(0);
    for (raw, _) in &events {
        forward.accumulate(*raw);
    }
    events.reverse();
    let mut backward = Aggregator::new(0);
    for (raw, _) in &events {
        backward.accumulate(*raw);
    }
    assert_eq!(forward.close(1), backward.close(1));
}

#[test]
fn reports_follow_the_readings_of_each_window() {
    // 25 loud readings, then the window closes on the 25th poll
    let mut events: Vec<(u16, u64)> = Vec::new();
    for i in 0..24u64 {
        events.push((0, i));
    }
    events.push((950, 1_000_000));
    // 20 quiet readings for the second window
    for i in 0..19u64 {
        events.push((950, 1_000_001 + i));
    }
    events.push((950, 2_000_000));
    let mut aggregator = Aggregator::new(0);
    let reports = feed(&mut aggregator, &events);
    assert_eq!(
        reports,
        vec![
            WindowReport { samples: 25, over_capacity: false, result: Some(255) },
            WindowReport { samples: 20, over_capacity: false, result: Some(0) },
        ]
    );
}

#[test]
fn replay_matches_feeding_one_by_one() {
    let events = readings(45_000, 3, 250, 100);
    let mut stepped = Aggregator::new(0);
    let mut replayed = Aggregator::new(0);
    let one_by_one = feed(&mut stepped, &events);
    let at_once = replayed.replay(&events);
    assert_eq!(one_by_one.len(), 4);
    assert_eq!(at_once, one_by_one);
    assert_eq!(replayed.len(), stepped.len());
    assert_eq!(replayed.opened_at(), stepped.opened_at());
}

#[test]
fn replay_of_the_same_trace_gives_the_same_reports() {
    let events = readings(30_000, 11, 0, 150);
    let first = Aggregator::new(0).replay(&events);
    let second = Aggregator::new(0).replay(&events);
    assert_eq!(first.len(), 4);
    assert_eq!(first, second);
}

#[test]
fn replay_of_nothing_reports_nothing() {
    let mut aggregator = Aggregator::new(9);
    assert_eq!(aggregator.replay(&[]), Vec::new());
    assert_eq!(aggregator.len(), 0);
    assert_eq!(aggregator.opened_at(), 9);
}

#[test]
fn replay_skips_out_of_range_readings() {
    let events: Vec<(u16, u64)> = vec![(951, 1), (0, 2), (1000, 3), (950, 1_000_000)];
    let mut aggregator = Aggregator::new(0);
    let reports = aggregator.replay(&events);
    assert_eq!(reports, vec![WindowReport { samples: 2, over_capacity: false, result: None }]);
}
