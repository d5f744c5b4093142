//! Tests for report computations: byte formatting, totals, ordering.

use saunafs_query::output::{format_bytes, sorted_op_counts, total_operations, written_total};
use saunafs_query::{parse_line, sort_segment_paths, ChangelogResults, TimestampRange};

#[test]
fn test_format_bytes_values() {
    assert_eq!("0.00 Bytes", format_bytes(0));
    assert_eq!("1023.00 Bytes", format_bytes(1023));
    assert_eq!("1.00 KB", format_bytes(1024));
    assert_eq!("1.50 KB", format_bytes(1536));
    assert_eq!("1.00 MB", format_bytes(1024 * 1024));
    assert_eq!("2.50 GB", format_bytes(2_684_354_560));
    assert_eq!("1.00 TB", format_bytes(1_099_511_627_776));
    assert_eq!("1.00 PB", format_bytes(1_125_899_906_842_624));
    assert_eq!("1.00 EB", format_bytes(1_152_921_504_606_846_976));
    assert_eq!("16.00 EB", format_bytes(u64::MAX));
}

#[test]
fn test_totals_and_sorting() {
    let mut results = ChangelogResults::default();
    let mut timeline = TimestampRange::default();
    for line in [
        "1: 5|SESSION():1",
        "2: 6|OPEN():1",
        "3: 7|OPEN():1",
        "4: 8|CREATE(1,a.txt,f,420):7",
        "5: 9|LENGTH(7,500)",
        "6: 10|OPEN():1",
    ] {
        parse_line(line, &mut results, &mut timeline).unwrap();
    }
    assert_eq!(6, total_operations(&results));
    results.inodes.drain_active();
    assert_eq!(500, written_total(&results));

    let sorted = sorted_op_counts(&results);
    assert_eq!(4, sorted.len());
    assert_eq!("OPEN", sorted[0].0);
    assert_eq!(3, sorted[0].1);
    for pair in sorted.windows(2) {
        assert!(pair[0].1 >= pair[1].1);
    }
}

#[test]
fn test_sort_segment_paths() {
    let mut paths: Vec<String> = vec![
        "journal.sfs.12".to_string(),
        "journal.sfs.3".to_string(),
        "journal.sfs".to_string(),
        "journal.sfs.7".to_string(),
    ];
    sort_segment_paths(&mut paths);
    assert_eq!(
        vec![
            "journal.sfs".to_string(),
            "journal.sfs.3".to_string(),
            "journal.sfs.7".to_string(),
            "journal.sfs.12".to_string(),
        ],
        paths
    );
}
