//! Integration tests for parsing whole changelog journals.

use saunafs_query::{parse_line, ChangelogResults, TimestampRange};

/// Feeds every line through the parser with no configured window, then
/// finalizes the inode history, as a scan over one journal would.
fn new_results(lines: &[String]) -> (TimestampRange, ChangelogResults) {
    let mut timestamp = TimestampRange {
        end: chrono::offset::Local::now().naive_utc().and_utc().timestamp(),
        ..Default::default()
    };
    let mut results = ChangelogResults::default();
    for line in lines {
        parse_line(line, &mut results, &mut timestamp).unwrap();
    }
    results.inodes.drain_active();
    (timestamp, results)
}

/// A journal with 82 operations, three inode lifetimes, and 31923 bytes
/// written in total.
fn written_journal() -> Vec<String> {
    let mut lines: Vec<String> = Vec::new();
    let mut id: u64 = 1;
    let mut ts: i64 = 1710181800;
    let mut push = |lines: &mut Vec<String>, body: &str| {
        let line = format!("{}: {}|{}", id, ts, body);
        id += 1;
        ts += 1;
        lines.push(line);
    };
    push(&mut lines, "CREATE(1,configuration.h,f,420,1000,1000,0):1");
    push(&mut lines, "LENGTH(1,10000)");
    push(&mut lines, "UNLINK(1,configuration.h):1");
    push(&mut lines, "LENGTH(2,1)");
    push(&mut lines, "LENGTH(2,20001)");
    push(&mut lines, "CREATE(1,notes.txt,f,420,1000,1000,0):3");
    push(&mut lines, "LENGTH(3,1000)");
    push(&mut lines, "LENGTH(3,1923)");
    for _ in 0..74 {
        push(&mut lines, "SESSION():1");
    }
    lines
}

#[test]
fn test_written_parse() {
    let lines = written_journal();
    let (_, results) = new_results(&lines);

    assert_eq!(results.op_count.iter().map(|op| op.1).sum::<u64>(), 82);
    println!("{:?}", results.inodes);
    assert_eq!(results.inodes.all.len(), 3);
    assert_eq!(
        31923,
        results.inodes.all.iter().map(|i| i.written).sum::<u64>()
    )
}

#[test]
fn test_directory_file_inode_counts() {
    let mut lines: Vec<String> = Vec::new();
    for i in 0..5u64 {
        lines.push(format!(
            "{}: {}|CREATE(1,file{}.txt,f,420,1000,1000,0):{}",
            i + 1,
            1710181800 + i,
            i,
            i + 10
        ));
    }
    for i in 0..6u64 {
        lines.push(format!(
            "{}: {}|CREATE(1,dir{},d,493,1000,1000,0):{}",
            i + 6,
            1710181810 + i,
            i,
            i + 20
        ));
    }
    let (_, results) = new_results(&lines);
    assert_eq!(results.file_count, 5);
    assert_eq!(results.dir_count, 6);
}

#[test]
fn test_rerun_is_deterministic() {
    let lines = written_journal();
    let (_, first) = new_results(&lines);
    let (_, second) = new_results(&lines);

    assert_eq!(
        first.op_count.iter().map(|op| op.1).sum::<u64>(),
        second.op_count.iter().map(|op| op.1).sum::<u64>()
    );
    assert_eq!(first.inodes.all.len(), second.inodes.all.len());
    assert_eq!(
        first.inodes.all.iter().map(|i| i.written).sum::<u64>(),
        second.inodes.all.iter().map(|i| i.written).sum::<u64>()
    );
    assert_eq!(first.file_count, second.file_count);
    assert_eq!(first.dir_count, second.dir_count);
    assert_eq!(first.inode_created_count, second.inode_created_count);
    assert_eq!(first.op_count.len(), second.op_count.len());
    for (a, b) in first.op_count.iter().zip(second.op_count.iter()) {
        assert_eq!(a.0, b.0);
        assert_eq!(a.1, b.1);
    }
}
