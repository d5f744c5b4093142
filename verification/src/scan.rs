//! The scan over a stream of record lines as a spec-level fold, and the
//! laws the aggregates obey along it: the observed window bounds track
//! the extreme timestamps, the operation counts add up to the number of
//! included records, and a record past a configured end bound freezes
//! the scan for good.

use vstd::prelude::*;

use crate::parser::line_parser::{spec_length, spec_record};
use crate::{bump_op, classify, find_op, lemma_find_op, sat_add_u64, spec_check, spec_step, widen};
use crate::{Outcome, ResultsV, TimestampRange};

verus! {

/// The aggregates a scan starts from: nothing counted, nothing tracked.
pub open spec fn initial_results() -> ResultsV {
    ResultsV {
        ops: Seq::<(Seq<char>, u64)>::empty(),
        active: Seq::<crate::parser::inodes::Inode>::empty(),
        all: Seq::<crate::parser::inodes::Inode>::empty(),
        files: 0,
        dirs: 0,
        inode_created: 0,
    }
}

/// The window a scan starts from when the operator configures nothing.
pub open spec fn initial_window() -> TimestampRange {
    TimestampRange { start: 0, end: 0, start_is_set: false, end_is_set: false }
}

/// The state after scanning `lines` from `(rv, tl)`: the fold of
/// `spec_step`, which ends early at a `Stop` outcome and at the first
/// malformed line.
pub open spec fn spec_scan(rv: ResultsV, tl: TimestampRange, lines: Seq<Seq<char>>) -> Result<
    (ResultsV, TimestampRange),
    Seq<char>,
>
    decreases lines.len(),
{
    if lines.len() == 0 {
        Ok((rv, tl))
    } else {
        match spec_step(rv, tl, lines[0]) {
            Err(e) => Err(e),
            Ok(t) => if t.2 is Stop {
                Ok((t.0, t.1))
            } else {
                spec_scan(t.0, t.1, lines.drop_first())
            },
        }
    }
}

/// How many records of `lines` the scan includes.
pub open spec fn included_count(rv: ResultsV, tl: TimestampRange, lines: Seq<Seq<char>>) -> int
    decreases lines.len(),
{
    if lines.len() == 0 {
        0
    } else {
        match spec_step(rv, tl, lines[0]) {
            Err(_) => 0,
            Ok(t) => match t.2 {
                Outcome::Stop => 0,
                Outcome::SkipOne => included_count(t.0, t.1, lines.drop_first()),
                Outcome::Include => 1 + included_count(t.0, t.1, lines.drop_first()),
            },
        }
    }
}

proof fn lemma_included_nonneg(rv: ResultsV, tl: TimestampRange, lines: Seq<Seq<char>>)
    ensures
        included_count(rv, tl, lines) >= 0,
    decreases lines.len(),
{
    if lines.len() > 0 {
        match spec_step(rv, tl, lines[0]) {
            Err(_) => (),
            Ok(t) => {
                lemma_included_nonneg(t.0, t.1, lines.drop_first());
            },
        }
    }
}

/// The total of the per-operation counts, as an unbounded integer.
pub open spec fn ops_total(ops: Seq<(Seq<char>, u64)>) -> int
    decreases ops.len(),
{
    if ops.len() == 0 {
        0
    } else {
        ops_total(ops.drop_last()) + ops.last().1
    }
}

proof fn lemma_entry_le_total(ops: Seq<(Seq<char>, u64)>, i: int)
    requires
        0 <= i < ops.len(),
    ensures
        ops[i].1 <= ops_total(ops),
        ops_total(ops) >= 0,
    decreases ops.len(),
{
    lemma_total_nonneg(ops.drop_last());
    if i == ops.len() - 1 {
    } else {
        lemma_entry_le_total(ops.drop_last(), i);
    }
}

proof fn lemma_total_nonneg(ops: Seq<(Seq<char>, u64)>)
    ensures
        ops_total(ops) >= 0,
    decreases ops.len(),
{
    if ops.len() > 0 {
        lemma_total_nonneg(ops.drop_last());
    }
}

proof fn lemma_update_total(ops: Seq<(Seq<char>, u64)>, i: int, e: (Seq<char>, u64))
    requires
        0 <= i < ops.len(),
    ensures
        ops_total(ops.update(i, e)) == ops_total(ops) - ops[i].1 + e.1,
    decreases ops.len(),
{
    let u = ops.update(i, e);
    if i == ops.len() - 1 {
        assert(u.drop_last() =~= ops.drop_last());
    } else {
        assert(u.drop_last() =~= ops.drop_last().update(i, e));
        lemma_update_total(ops.drop_last(), i, e);
        assert(u.last() == ops.last());
    }
}

/// Counting one more record raises the total by exactly one, as long as
/// the counter has room.
proof fn lemma_bump_total(ops: Seq<(Seq<char>, u64)>, name: Seq<char>)
    requires
        ops_total(ops) < u64::MAX,
    ensures
        ops_total(bump_op(ops, name)) == ops_total(ops) + 1,
{
    lemma_find_op(ops, name);
    match find_op(ops, name) {
        Some(i) => {
            lemma_entry_le_total(ops, i);
            lemma_update_total(ops, i, (name, sat_add_u64(ops[i].1, 1)));
        },
        None => {
            assert(ops.push((name, 1u64)).drop_last() =~= ops);
        },
    }
}

/// An included record changes only the lifecycle state and the marker
/// counters, never the per-operation counts.
proof fn lemma_check_keeps_ops(
    rv: ResultsV,
    p: crate::parser::line_parser::RecordFields,
    line: Seq<char>,
)
    ensures
        spec_check(rv, p, line) matches Ok(rv1) ==> rv1.ops == rv.ops,
{
}

/// The sum of the per-operation counts grows by exactly the number of
/// included records: skipped and stopping records count for nothing, and
/// every included record counts for exactly one, whatever its operation.
pub proof fn lemma_counts_match_included(rv: ResultsV, tl: TimestampRange, lines: Seq<Seq<char>>)
    requires
        ops_total(rv.ops) + included_count(rv, tl, lines) <= u64::MAX,
    ensures
        spec_scan(rv, tl, lines) matches Ok(t) ==> ops_total(t.0.ops) == ops_total(rv.ops)
            + included_count(rv, tl, lines),
    decreases lines.len(),
{
    lemma_total_nonneg(rv.ops);
    if lines.len() == 0 {
    } else {
        match spec_step(rv, tl, lines[0]) {
            Err(_) => (),
            Ok(t) => {
                lemma_included_nonneg(t.0, t.1, lines.drop_first());
                match t.2 {
                    Outcome::Stop => (),
                    Outcome::SkipOne => {
                        lemma_counts_match_included(t.0, t.1, lines.drop_first());
                    },
                    Outcome::Include => {
                        let p = spec_record(lines[0])->Ok_0;
                        let rv1 = spec_check(rv, p, lines[0])->Ok_0;
                        lemma_check_keeps_ops(rv, p, lines[0]);
                        lemma_bump_total(rv1.ops, p.op);
                        lemma_counts_match_included(t.0, t.1, lines.drop_first());
                    },
                }
            },
        }
    }
}

/// The timestamp of a well-formed record line.
pub open spec fn rec_ts(line: Seq<char>) -> i64 {
    (spec_record(line)->Ok_0).ts
}

/// A line the scan can always digest: it parses, and when it is a
/// `LENGTH` record without a trailing inode its argument pair parses too.
pub open spec fn line_ok(line: Seq<char>) -> bool {
    &&& spec_record(line) is Ok
    &&& ((spec_record(line)->Ok_0).inode is None && (spec_record(line)->Ok_0).op == "LENGTH"@
        ==> spec_length(line) is Ok)
}

/// The smallest record timestamp of a non-empty stream.
pub open spec fn min_ts(lines: Seq<Seq<char>>) -> int
    recommends
        lines.len() > 0,
    decreases lines.len(),
{
    if lines.len() <= 1 {
        rec_ts(lines[0]) as int
    } else {
        let rest = min_ts(lines.drop_first());
        if rec_ts(lines[0]) <= rest {
            rec_ts(lines[0]) as int
        } else {
            rest
        }
    }
}

/// The largest record timestamp of a non-empty stream.
pub open spec fn max_ts(lines: Seq<Seq<char>>) -> int
    recommends
        lines.len() > 0,
    decreases lines.len(),
{
    if lines.len() <= 1 {
        rec_ts(lines[0]) as int
    } else {
        let rest = max_ts(lines.drop_first());
        if rec_ts(lines[0]) >= rest {
            rec_ts(lines[0]) as int
        } else {
            rest
        }
    }
}

proof fn lemma_ts_bounds(lines: Seq<Seq<char>>)
    requires
        lines.len() > 0,
        forall|i: int| 0 <= i < lines.len() ==> rec_ts(#[trigger] lines[i]) >= 1,
    ensures
        min_ts(lines) >= 1,
        max_ts(lines) >= min_ts(lines),
    decreases lines.len(),
{
    if lines.len() > 1 {
        assert(forall|i: int|
            0 <= i < lines.drop_first().len() ==> lines.drop_first()[i] == lines[i + 1]);
        lemma_ts_bounds(lines.drop_first());
    }
}

/// With neither bound configured, a scan from `(rv, tl)` runs every line
/// to the end, and the observed window afterwards covers the extreme
/// timestamps as stated.
proof fn lemma_scan_observes(rv: ResultsV, tl: TimestampRange, lines: Seq<Seq<char>>)
    requires
        !tl.start_is_set,
        !tl.end_is_set,
        tl.start >= 0,
        tl.end >= 0,
        forall|i: int| 0 <= i < lines.len() ==> line_ok(#[trigger] lines[i]),
        forall|i: int| 0 <= i < lines.len() ==> rec_ts(#[trigger] lines[i]) >= 1,
    ensures
        spec_scan(rv, tl, lines) is Ok,
        ({
            let t = spec_scan(rv, tl, lines)->Ok_0;
            &&& lines.len() == 0 ==> t.1 == tl
            &&& lines.len() > 0 ==> t.1.end == (if tl.end >= max_ts(lines) {
                tl.end as int
            } else {
                max_ts(lines)
            })
            &&& lines.len() > 0 ==> t.1.start == (if tl.start == 0 {
                min_ts(lines)
            } else if min_ts(lines) < tl.start {
                min_ts(lines)
            } else {
                tl.start as int
            })
        }),
    decreases lines.len(),
{
    if lines.len() > 0 {
        let p = spec_record(lines[0])->Ok_0;
        assert(line_ok(lines[0]));
        assert(classify(tl, p.ts) is Include);
        assert(spec_check(rv, p, lines[0]) is Ok);
        let t0 = spec_step(rv, tl, lines[0])->Ok_0;
        let tl1 = widen(tl, p.ts);
        assert(t0.1 == tl1);
        assert(forall|i: int|
            0 <= i < lines.drop_first().len() ==> lines.drop_first()[i] == lines[i + 1]);
        lemma_ts_bounds(lines);
        lemma_scan_observes(t0.0, tl1, lines.drop_first());
        if lines.len() > 1 {
            lemma_ts_bounds(lines.drop_first());
        }
    }
}

/// For a well-formed stream scanned with no window configured, the
/// observed bounds equal the smallest and largest record timestamps.
pub proof fn lemma_unset_window_tracks_extremes(lines: Seq<Seq<char>>)
    requires
        lines.len() > 0,
        forall|i: int| 0 <= i < lines.len() ==> line_ok(#[trigger] lines[i]),
        forall|i: int| 0 <= i < lines.len() ==> rec_ts(#[trigger] lines[i]) >= 1,
    ensures
        spec_scan(initial_results(), initial_window(), lines) is Ok,
        ({
            let t = spec_scan(initial_results(), initial_window(), lines)->Ok_0;
            &&& t.1.start == min_ts(lines)
            &&& t.1.end == max_ts(lines)
        }),
{
    lemma_ts_bounds(lines);
    lemma_scan_observes(initial_results(), initial_window(), lines);
}

/// A record whose timestamp passes a configured end bound stops the
/// whole scan on the spot: nothing that follows it is included or folded
/// into the aggregates, however small the later timestamps are.
pub proof fn lemma_end_bound_stops_scan(rv: ResultsV, tl: TimestampRange, lines: Seq<Seq<char>>)
    requires
        lines.len() > 0,
        spec_record(lines[0]) is Ok,
        tl.end_is_set,
        tl.end < (spec_record(lines[0])->Ok_0).ts,
    ensures
        spec_scan(rv, tl, lines) == Ok::<(ResultsV, TimestampRange), Seq<char>>((rv, tl)),
        included_count(rv, tl, lines) == 0,
{
    assert(classify(tl, (spec_record(lines[0])->Ok_0).ts) is Stop);
}

} // verus!
