//! Decimal text, the split of a batch over threads, and frame recording.

use flocking_lib::ensemble::{check_generated_count, plan_entry_ranges};
use flocking_lib::simulation::{expected_snapshot_count, RunClock};
use flocking_lib::text::{decimal_string, parse_usize};

#[test]
fn decimal_text_of_numbers() {
    assert_eq!(decimal_string(0), "0");
    assert_eq!(decimal_string(7), "7");
    assert_eq!(decimal_string(10), "10");
    assert_eq!(decimal_string(1203), "1203");
    assert_eq!(decimal_string(usize::MAX), usize::MAX.to_string());
}

#[test]
fn parse_usize_as_std() {
    for s in ["0", "12", "+12", "007", "", "+", "-1", "1a", " 1", "18446744073709551615", "18446744073709551616", "+-1"] {
        assert_eq!(parse_usize(s), s.parse::<usize>().ok(), "text {:?}", s);
    }
    assert_eq!(parse_usize(&usize::MAX.to_string()), Some(usize::MAX));
}

#[test]
fn plan_splits_entries_over_threads() {
    assert_eq!(plan_entry_ranges(10, 4, 8).unwrap(), vec![(0, 3), (3, 6), (6, 9), (9, 10)]);
    assert_eq!(plan_entry_ranges(5, 4, 8).unwrap(), vec![(0, 2), (2, 4), (4, 5)]);
    assert_eq!(plan_entry_ranges(3, 8, 2).unwrap(), vec![(0, 2), (2, 3)]);
    assert_eq!(plan_entry_ranges(1, 1, 1).unwrap(), vec![(0, 1)]);
    assert_eq!(plan_entry_ranges(50, 2, 16).unwrap(), vec![(0, 25), (25, 50)]);
    assert_eq!(plan_entry_ranges(4, 16, 16).unwrap(), vec![(0, 1), (1, 2), (2, 3), (3, 4)]);
}

#[test]
fn plan_of_empty_batch_and_of_no_thread() {
    assert_eq!(plan_entry_ranges(0, 4, 8), Ok(Vec::new()));
    assert_eq!(plan_entry_ranges(0, 0, 8), Ok(Vec::new()));
    let msg = "No worker thread to generate the entries with".to_string();
    assert_eq!(plan_entry_ranges(5, 0, 8), Err(msg.clone()));
    assert_eq!(plan_entry_ranges(5, 3, 0), Err(msg));
    assert_eq!(plan_entry_ranges(usize::MAX, 2, 2).unwrap(), vec![(0, usize::MAX / 2 + 1), (usize::MAX / 2 + 1, usize::MAX)]);
}

#[test]
fn plan_covers_every_entry_once() {
    for n in 1..40usize {
        for requested in 1..10usize {
            for available in 1..6usize {
                let ranges = plan_entry_ranges(n, requested, available).unwrap();
                let mut next = 0;
                for (start, end) in &ranges {
                    assert_eq!(*start, next);
                    assert!(start < end);
                    next = *end;
                }
                assert_eq!(next, n);
                assert!(ranges.len() <= requested.min(available).min(n));
            }
        }
    }
}

#[test]
fn generated_count_check() {
    assert_eq!(check_generated_count(3, 3), Ok(()));
    assert_eq!(
        check_generated_count(2, 3),
        Err("Generated 2 entries but expected 3".to_string())
    );
}

#[test]
fn expected_snapshots() {
    assert_eq!(expected_snapshot_count(10, 3), 4);
    assert_eq!(expected_snapshot_count(9, 3), 3);
    assert_eq!(expected_snapshot_count(0, 5), 0);
    assert_eq!(expected_snapshot_count(2000, 1), 2000);
}

#[test]
fn run_clock_records_frames_on_multiples() {
    let mut clock = RunClock::new(7, 3);
    let mut frames = Vec::new();
    while !clock.is_finished() {
        if clock.advance() {
            frames.push(clock.step_count());
        }
    }
    assert_eq!(frames, vec![3, 6]);
    assert_eq!(clock.step_count(), 7);
    assert!(frames.len() <= expected_snapshot_count(7, 3));
}

#[test]
fn run_clock_edge_cases() {
    let clock = RunClock::new(0, 0);
    assert!(clock.is_finished());
    let clock = RunClock::new(0, 5);
    assert!(clock.is_finished());
    assert_eq!(clock.step_count(), 0);

    let mut clock = RunClock::new(3, 1);
    assert_eq!((clock.advance(), clock.advance(), clock.advance()), (true, true, true));
    assert!(clock.is_finished());

    let mut clock = RunClock::new(4, 10);
    let mut recorded = 0;
    while !clock.is_finished() {
        if clock.advance() {
            recorded += 1;
        }
    }
    assert_eq!(recorded, 0);
}
