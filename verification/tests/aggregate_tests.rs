//! Scenario tests for the window filter, the operation aggregator and
//! the inode lifecycle tracker.

use saunafs_query::parser::inodes::Inodes;
use saunafs_query::{parse_line, ChangelogResults, TimestampRange};

#[test]
fn test_unset_window_tracks_extremes() {
    let mut results = ChangelogResults::default();
    let mut timeline = TimestampRange::default();
    for line in [
        "1: 5|SESSION():1",
        "2: 3|SESSION():1",
        "3: 9|SESSION():1",
        "4: 7|SESSION():1",
    ] {
        assert_eq!(Ok(true), parse_line(line, &mut results, &mut timeline));
    }
    assert_eq!(3, timeline.start);
    assert_eq!(9, timeline.end);
    assert!(!timeline.start_is_set);
    assert!(!timeline.end_is_set);
}

#[test]
fn test_counts_sum_to_included_records() {
    let mut results = ChangelogResults::default();
    let mut timeline = TimestampRange {
        start: 10,
        start_is_set: true,
        ..Default::default()
    };
    // Two records fall before the start bound and are skipped.
    for line in [
        "1: 5|SESSION():1",
        "2: 15|SESSION():1",
        "3: 8|OPEN():1",
        "4: 20|OPEN():1",
        "5: 30|CREATE(1,a.txt,f,420):7",
    ] {
        assert_eq!(Ok(true), parse_line(line, &mut results, &mut timeline));
    }
    assert_eq!(3, results.op_count.iter().map(|op| op.1).sum::<u64>());
    // Explicitly configured bounds are never widened.
    assert_eq!(10, timeline.start);
}

#[test]
fn test_end_bound_stops_scan() {
    let mut results = ChangelogResults::default();
    let mut timeline = TimestampRange {
        end: 100,
        end_is_set: true,
        ..Default::default()
    };
    assert_eq!(
        Ok(false),
        parse_line("1: 200|SESSION():1", &mut results, &mut timeline)
    );
    // The stopping record itself is not folded into the aggregates.
    assert_eq!(0, results.op_count.len());
    assert_eq!(100, timeline.end);
}

#[test]
fn test_window_bounds_are_inclusive() {
    let mut results = ChangelogResults::default();
    let mut timeline = TimestampRange {
        start: 10,
        end: 20,
        start_is_set: true,
        end_is_set: true,
    };
    // On the bounds: included.
    assert_eq!(
        Ok(true),
        parse_line("1: 10|SESSION():1", &mut results, &mut timeline)
    );
    assert_eq!(
        Ok(true),
        parse_line("2: 20|SESSION():1", &mut results, &mut timeline)
    );
    // Before the start: skipped but the scan goes on.
    assert_eq!(
        Ok(true),
        parse_line("3: 9|SESSION():1", &mut results, &mut timeline)
    );
    // Past the end: the scan stops.
    assert_eq!(
        Ok(false),
        parse_line("4: 21|SESSION():1", &mut results, &mut timeline)
    );
    assert_eq!(2, results.op_count.iter().map(|op| op.1).sum::<u64>());
}

#[test]
fn test_increasing_lengths_accumulate() {
    let mut inodes = Inodes::new();
    inodes.append(7, Some(100));
    inodes.update_length(7, 1000);
    inodes.update_length(7, 1500);
    inodes.update_length(7, 2500);
    inodes.drain_active();
    assert_eq!(1, inodes.all.len());
    assert_eq!(2500, inodes.all[0].written);
    assert_eq!(2500, inodes.all[0].last_known_length);
}

#[test]
fn test_truncation_writes_nothing() {
    let mut inodes = Inodes::new();
    inodes.append(7, Some(100));
    inodes.update_length(7, 1000);
    inodes.update_length(7, 400);
    inodes.drain_active();
    assert_eq!(1000, inodes.all[0].written);
    assert_eq!(400, inodes.all[0].last_known_length);
}

#[test]
fn test_reused_inode_id_keeps_two_lifetimes() {
    let mut inodes = Inodes::new();
    inodes.append(7, Some(100));
    inodes.update_length(7, 1000);
    inodes.delete(7, Some(150));
    inodes.append(7, Some(200));
    inodes.update_length(7, 30);
    inodes.drain_active();
    assert_eq!(2, inodes.all.len());
    assert_eq!(1000, inodes.all[0].written);
    assert_eq!(Some(100), inodes.all[0].created);
    // The finalized entry keeps the deletion stamp it already had: none.
    assert_eq!(None, inodes.all[0].deleted);
    assert_eq!(30, inodes.all[1].written);
    assert_eq!(Some(200), inodes.all[1].created);
}

#[test]
fn test_delete_without_active_entry() {
    let mut inodes = Inodes::new();
    inodes.delete(9, Some(300));
    assert_eq!(1, inodes.all.len());
    assert_eq!(Some(300), inodes.all[0].deleted);
    assert_eq!(None, inodes.all[0].created);
    assert_eq!(0, inodes.all[0].written);
}

#[test]
fn test_create_does_not_overwrite_active_entry() {
    let mut inodes = Inodes::new();
    inodes.append(7, Some(100));
    inodes.update_length(7, 50);
    inodes.append(7, Some(999));
    inodes.drain_active();
    assert_eq!(1, inodes.all.len());
    assert_eq!(Some(100), inodes.all[0].created);
    assert_eq!(50, inodes.all[0].written);
}

#[test]
fn test_length_for_unseen_inode_counts_nothing() {
    let mut inodes = Inodes::new();
    inodes.update_length(5, 4096);
    inodes.drain_active();
    assert_eq!(1, inodes.all.len());
    assert_eq!(0, inodes.all[0].written);
    assert_eq!(4096, inodes.all[0].last_known_length);
}
