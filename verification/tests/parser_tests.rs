//! Unit tests for the record parser and the numeric field parsers.

use saunafs_query::numbers::{parse_i64, parse_u64};
use saunafs_query::parser::line_parser::{parse_id, parse_inode, parse_operation, parse_timestamp, Parser};
use saunafs_query::{parse_line, ChangelogResults, TimestampRange};

#[test]
fn test_parse_inodes() {
    let create = "5: 1710181938|CREATE(1,configuration.h,f,420,1000,1000,0):2";
    let session = "4: 1710181842|SESSION():1";
    let write = "33: 1710182099|WRITE(3,0,1,3033285594):15";
    let trunc = "72: 1710183175|TRUNC(4,0,0):16";
    let unlink = "59: 1710183125|UNLINK(1,configuration.h):3";

    assert_eq!(Some(2), parse_inode(create, "CREATE"));
    assert_eq!(Some(1), parse_inode(session, "SESSION"));
    assert_eq!(None, parse_inode(write, "WRITE"));
    assert_eq!(None, parse_inode(trunc, "TRUNC"));
    assert_eq!(Some(3), parse_inode(unlink, "UNLINK"));
}

#[test]
fn test_field_parsers() {
    let line = "5: 1710181938|CREATE(1,configuration.h,f,420,1000,1000,0):2";
    assert_eq!(Ok(5), parse_id(line));
    assert_eq!(Ok(1710181938), parse_timestamp(line));
    assert_eq!("CREATE", parse_operation(line).unwrap());

    let negative = "7: -12|SESSION():1";
    assert_eq!(Ok(-12), parse_timestamp(negative));
}

#[test]
fn test_trailing_inode_is_trimmed() {
    let parser = Parser::new("9: 10|MKNOD(x,y):\t42 ").unwrap();
    assert_eq!(Some(42), parser.inode);
    let plus = Parser::new("9: 10|MKNOD(x,y):+42").unwrap();
    assert_eq!(Some(42), plus.inode);
    let junk = Parser::new("9: 10|MKNOD(x,y):4x2").unwrap();
    assert_eq!(None, junk.inode);
}

#[test]
fn test_parse_length_pairs() {
    let parser = Parser::new("9: 10|LENGTH(7,1234)").unwrap();
    assert_eq!(Ok((7, 1234)), parser.parse_length());
}

#[test]
fn test_format_errors() {
    let mut results = ChangelogResults::default();
    let mut timeline = TimestampRange::default();

    assert_eq!(
        Err("Line format incorrect, expected ':' separator"),
        parse_line("garbage", &mut results, &mut timeline)
    );
    assert_eq!(
        Err("Line format incorrect, expected ':' separator"),
        parse_line("1: a: b", &mut results, &mut timeline)
    );
    assert_eq!(
        Err("Failed to parse timestamp as i64"),
        parse_line("1: x|OP()", &mut results, &mut timeline)
    );
    assert_eq!(
        Err("Failed to parse ID as u64"),
        parse_line("x: 5|OP()", &mut results, &mut timeline)
    );
    assert_eq!(
        Err("Line format incorrect, expected '|' separator"),
        parse_line("1: 5", &mut results, &mut timeline)
    );
    assert_eq!(
        Err("Could not find '(' in length operation line"),
        parse_line("7: 9|LENGTH", &mut results, &mut timeline)
    );
    assert_eq!(
        Err("Could not find ')' in length operation line"),
        parse_line("7: 9|LENGTH(2,5", &mut results, &mut timeline)
    );
    assert_eq!(
        Err("Could not find ',' in length operation line"),
        parse_line("7: 9|LENGTH(25)", &mut results, &mut timeline)
    );
    assert_eq!(
        Err("Failed to parse inode into u64 in lenght operation."),
        parse_line("7: 9|LENGTH(a,5)", &mut results, &mut timeline)
    );
    assert_eq!(
        Err("Failed to parse length into u64."),
        parse_line("7: 9|LENGTH(2,b)", &mut results, &mut timeline)
    );

    // A failed line changes nothing.
    assert_eq!(0, results.op_count.len());
    assert_eq!(0, results.inode_created_count);
}

#[test]
fn test_numeric_bounds() {
    assert_eq!(Some(u64::MAX), parse_u64("18446744073709551615"));
    assert_eq!(None, parse_u64("18446744073709551616"));
    assert_eq!(Some(42), parse_u64("+42"));
    assert_eq!(None, parse_u64("+"));
    assert_eq!(None, parse_u64(""));
    assert_eq!(None, parse_u64("4 2"));

    assert_eq!(Some(i64::MIN), parse_i64("-9223372036854775808"));
    assert_eq!(None, parse_i64("-9223372036854775809"));
    assert_eq!(Some(i64::MAX), parse_i64("9223372036854775807"));
    assert_eq!(None, parse_i64("9223372036854775808"));
}
