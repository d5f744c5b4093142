//! Aggregation engine for append-only filesystem changelog journals.
//!
//! A journal record has the shape
//! `<id>: <timestamp>|<OPERATION>(<args>)[:<trailing-field>]`.
//! This crate orders rotated journal segments, parses records, applies an
//! optional time window with early termination, tracks inode lifecycles
//! across identifier reuse, and accumulates per-operation counts.
//! Reading files and rendering the report live outside the library; the
//! library works on plain lines and timestamps in Unix seconds.

use vstd::multiset::Multiset;
use vstd::prelude::*;

pub mod numbers;
pub mod output;
pub mod parser;
pub mod scan;
pub mod text;

use parser::inodes::{spec_append, spec_delete, spec_update, Inode, Inodes};
use parser::line_parser::{spec_length, spec_record, Parser, RecordFields};

verus! {

/// Addition on a counter that stays at the largest representable value
/// instead of wrapping.
pub open spec fn sat_add_u64(a: u64, b: u64) -> u64 {
    if a + b > u64::MAX {
        u64::MAX
    } else {
        (a + b) as u64
    }
}

/// Compares two string slices character by character.
pub fn str_eq(a: &str, b: &str) -> (r: bool)
    ensures
        r == (a@ == b@),
{
    let n = a.unicode_len();
    if n != b.unicode_len() {
        return false;
    }
    let mut i: usize = 0;
    while i < n
        invariant
            n == a@.len(),
            n == b@.len(),
            0 <= i <= n,
            forall|j: int| 0 <= j < i ==> a@[j] == b@[j],
        decreases n - i,
    {
        if a.get_char(i) != b.get_char(i) {
            return false;
        }
        i += 1;
    }
    proof {
        assert(a@ =~= b@);
    }
    true
}

/// Struct to hold the start and end timestamps, in Unix seconds.
/// The start and end timestamps are used to determine the range of logs
/// to read. The start_is_set and end_is_set are used to determine if the
/// start and end timestamps are set by the user. If they are not set, the
/// first and last timestamps found in the logs are used.
#[derive(Clone, Copy, Debug, PartialEq, Eq, Structural)]
pub struct TimestampRange {
    /// The start timestamp
    pub start: i64,
    /// The end timestamp
    pub end: i64,
    /// Whether the start timestamp is set by the user
    pub start_is_set: bool,
    /// Whether the end timestamp is set by the user
    pub end_is_set: bool,
}

impl Default for TimestampRange {
    /// Both bounds unset at the epoch.
    fn default() -> (r: Self)
        ensures
            r == (TimestampRange { start: 0, end: 0, start_is_set: false, end_is_set: false }),
    {
        TimestampRange { start: 0, end: 0, start_is_set: false, end_is_set: false }
    }
}

/// What the Timeline Window Filter decides for one record.
pub enum Outcome {
    /// The record passed a configured end bound: the whole scan ends.
    Stop,
    /// The record lies before a configured start bound: only it is skipped.
    SkipOne,
    /// The record is folded into the aggregates.
    Include,
}

/// The decision for a record with timestamp `ts` under the window `tl`.
pub open spec fn classify(tl: TimestampRange, ts: i64) -> Outcome {
    if tl.end_is_set && tl.end < ts {
        Outcome::Stop
    } else if tl.start_is_set && tl.start > ts {
        Outcome::SkipOne
    } else {
        Outcome::Include
    }
}

/// The observed bounds after an included record: an unset bound widens to
/// cover the record's timestamp — the start also latches on when it still
/// sits at the epoch — while a bound the operator configured never moves.
pub open spec fn widen(tl: TimestampRange, ts: i64) -> TimestampRange {
    TimestampRange {
        start: if !tl.start_is_set && (tl.start > ts || tl.start == 0) {
            ts
        } else {
            tl.start
        },
        end: if !tl.end_is_set && tl.end < ts {
            ts
        } else {
            tl.end
        },
        ..tl
    }
}

/// The first position in `ops` counting `name`, if any.
pub open spec fn find_op(ops: Seq<(Seq<char>, u64)>, name: Seq<char>) -> Option<int>
    decreases ops.len(),
{
    if ops.len() == 0 {
        None
    } else if ops[0].0 == name {
        Some(0int)
    } else {
        match find_op(ops.drop_first(), name) {
            Some(i) => Some(i + 1),
            None => None,
        }
    }
}

pub proof fn lemma_find_op(ops: Seq<(Seq<char>, u64)>, name: Seq<char>)
    ensures
        match find_op(ops, name) {
            Some(i) => 0 <= i < ops.len() && ops[i].0 == name && (forall|j: int|
                0 <= j < i ==> ops[j].0 != name),
            None => forall|j: int| 0 <= j < ops.len() ==> ops[j].0 != name,
        },
    decreases ops.len(),
{
    if ops.len() > 0 && ops[0].0 != name {
        lemma_find_op(ops.drop_first(), name);
        assert(forall|j: int| 1 <= j < ops.len() ==> ops[j] == ops.drop_first()[j - 1]);
    }
}

/// The per-operation counts after one more record named `name`.
pub open spec fn bump_op(ops: Seq<(Seq<char>, u64)>, name: Seq<char>) -> Seq<(Seq<char>, u64)> {
    match find_op(ops, name) {
        Some(i) => ops.update(i, (name, sat_add_u64(ops[i].1, 1))),
        None => ops.push((name, 1u64)),
    }
}

/// The aggregate state a scan threads through the records.
#[verifier::ext_equal]
pub struct ResultsV {
    pub ops: Seq<(Seq<char>, u64)>,
    pub active: Seq<Inode>,
    pub all: Seq<Inode>,
    pub files: u64,
    pub dirs: u64,
    pub inode_created: u64,
}

/// Struct to hold the results of the changelog analysis
#[derive(Debug)]
pub struct ChangelogResults {
    /// Per-operation counts, one entry per operation name
    pub op_count: Vec<(String, u64)>,
    /// Inodes struct to hold both currently active and historical inodes
    pub inodes: Inodes,
    /// Count of files created
    pub file_count: u64,
    /// Count of directories created
    pub dir_count: u64,
    /// Count of inodes created
    pub inode_created_count: u64,
}

impl ChangelogResults {
    /// The per-operation counts as pairs of name and count.
    pub open spec fn ops_v(self) -> Seq<(Seq<char>, u64)> {
        Seq::new(self.op_count@.len(), |i: int| (self.op_count@[i].0@, self.op_count@[i].1))
    }

    /// The whole aggregate state as spec values.
    pub open spec fn rv(self) -> ResultsV {
        ResultsV {
            ops: self.ops_v(),
            active: self.inodes.active_v(),
            all: self.inodes.all_v(),
            files: self.file_count,
            dirs: self.dir_count,
            inode_created: self.inode_created_count,
        }
    }

    /// One count per operation name, and a sound inode tracker.
    pub open spec fn wf(self) -> bool {
        &&& self.inodes.wf()
        &&& forall|i: int, j: int|
            0 <= i < j < self.ops_v().len() ==> (#[trigger] self.ops_v()[i]).0 != (
            #[trigger] self.ops_v()[j]).0
    }

    /// Count one more record for the operation named `name`. A count at
    /// the largest representable value stays there.
    fn bump(&mut self, name: &str)
        requires
            old(self).wf(),
        ensures
            final(self).wf(),
            final(self).rv() == (ResultsV { ops: bump_op(old(self).rv().ops, name@), ..old(
                self,
            ).rv() }),
    {
        proof {
            lemma_find_op(self.ops_v(), name@);
        }
        let n = self.op_count.len();
        let mut i: usize = 0;
        while i < n
            invariant
                *self == *old(self),
                old(self).wf(),
                n == self.op_count@.len(),
                0 <= i <= n,
                forall|j: int| 0 <= j < i ==> (#[trigger] self.op_count@[j].0)@ != name@,
            decreases n - i,
        {
            if str_eq(self.op_count[i].0.as_str(), name) {
                proof {
                    lemma_find_op(self.ops_v(), name@);
                    assert(self.ops_v()[i as int].0 == name@);
                }
                let key = self.op_count[i].0.clone();
                let count = self.op_count[i].1;
                self.op_count[i] = (key, count.saturating_add(1));
                proof {
                    assert(self.ops_v() =~= bump_op(old(self).ops_v(), name@));
                }
                return ;
            }
            i += 1;
        }
        proof {
            lemma_find_op(self.ops_v(), name@);
            assert(forall|j: int|
                0 <= j < self.ops_v().len() ==> (#[trigger] self.ops_v()[j]).0 != name@);
        }
        self.op_count.push((String::from_str(name), 1));
        proof {
            assert(self.ops_v() =~= bump_op(old(self).ops_v(), name@));
            assert(forall|j: int| 0 <= j < old(self).ops_v().len() ==> self.ops_v()[j] == old(
                self,
            ).ops_v()[j]);
        }
    }
}

impl Default for ChangelogResults {
    /// Empty aggregates: no counts, no inodes, zero counters.
    fn default() -> (r: Self)
        ensures
            r.wf(),
            r.rv() == (ResultsV {
                ops: Seq::<(Seq<char>, u64)>::empty(),
                active: Seq::<Inode>::empty(),
                all: Seq::<Inode>::empty(),
                files: 0,
                dirs: 0,
                inode_created: 0,
            }),
    {
        let r = ChangelogResults {
            op_count: Vec::new(),
            inodes: Inodes::new(),
            file_count: 0,
            dir_count: 0,
            inode_created_count: 0,
        };
        proof {
            assert(r.ops_v() =~= Seq::<(Seq<char>, u64)>::empty());
        }
        r
    }
}

/// How an included record changes the aggregates other than the counts:
/// `CREATE` with an inode starts a lifecycle and counts the marker,
/// `UNLINK` with an inode finalizes one, `LENGTH` without one updates a
/// length, and every other record leaves them alone.
pub open spec fn spec_check(rv: ResultsV, p: RecordFields, line: Seq<char>) -> Result<
    ResultsV,
    Seq<char>,
> {
    match p.inode {
        Some(ino) => {
            if p.op == "CREATE"@ {
                Ok(
                    ResultsV {
                        active: spec_append(rv.active, ino, Some(p.ts)),
                        dirs: if text::has_triple(line, ',', 'd', ',') {
                            sat_add_u64(rv.dirs, 1)
                        } else {
                            rv.dirs
                        },
                        files: if !text::has_triple(line, ',', 'd', ',') && text::has_triple(
                            line,
                            ',',
                            'f',
                            ',',
                        ) {
                            sat_add_u64(rv.files, 1)
                        } else {
                            rv.files
                        },
                        inode_created: sat_add_u64(rv.inode_created, 1),
                        ..rv
                    },
                )
            } else if p.op == "UNLINK"@ {
                Ok(
                    ResultsV {
                        active: spec_delete(rv.active, rv.all, ino, Some(p.ts)).0,
                        all: spec_delete(rv.active, rv.all, ino, Some(p.ts)).1,
                        ..rv
                    },
                )
            } else {
                Ok(rv)
            }
        },
        None => {
            if p.op == "LENGTH"@ {
                match spec_length(line) {
                    Err(e) => Err(e),
                    Ok(pair) => Ok(
                        ResultsV { active: spec_update(rv.active, pair.0, pair.1), ..rv },
                    ),
                }
            } else {
                Ok(rv)
            }
        },
    }
}

/// What one line does to the aggregates and the window: parse, classify
/// against the window, and on inclusion update the lifecycle state, count
/// the operation, and widen the observed bounds.
pub open spec fn spec_step(rv: ResultsV, tl: TimestampRange, line: Seq<char>) -> Result<
    (ResultsV, TimestampRange, Outcome),
    Seq<char>,
> {
    match spec_record(line) {
        Err(e) => Err(e),
        Ok(p) => match classify(tl, p.ts) {
            Outcome::Stop => Ok((rv, tl, Outcome::Stop)),
            Outcome::SkipOne => Ok((rv, tl, Outcome::SkipOne)),
            Outcome::Include => match spec_check(rv, p, line) {
                Err(e) => Err(e),
                Ok(rv1) => Ok(
                    (
                        ResultsV { ops: bump_op(rv1.ops, p.op), ..rv1 },
                        widen(tl, p.ts),
                        Outcome::Include,
                    ),
                ),
            },
        },
    }
}

/// Check if the operation is an inode operation, and if so, update the
/// inodes struct in ChangelogResults.
fn check_inode_operation(parse: &Parser, results: &mut ChangelogResults) -> (r: Result<
    (),
    &'static str,
>)
    requires
        old(results).wf(),
    ensures
        final(results).wf(),
        match spec_check(old(results).rv(), parse.rec(), parse.line@) {
            Ok(rv1) => r is Ok && final(results).rv() == rv1,
            Err(m) => (r matches Err(e) && e@ == m) && *final(results) == *old(results),
        },
{
    match parse.inode {
        Some(inode) => {
            if str_eq(parse.operation.as_str(), "CREATE") {
                results.inodes.append(inode, Some(parse.timestamp));
                let mut dirs = results.dir_count;
                let mut files = results.file_count;
                parse.parse_line_for_dir_file(&mut dirs, &mut files);
                results.dir_count = dirs;
                results.file_count = files;
                results.inode_created_count = results.inode_created_count.saturating_add(1);
                proof {
                    assert(results.rv() =~= spec_check(
                        old(results).rv(),
                        parse.rec(),
                        parse.line@,
                    )->Ok_0);
                }
            } else if str_eq(parse.operation.as_str(), "UNLINK") {
                results.inodes.delete(inode, Some(parse.timestamp));
                proof {
                    assert(results.rv() =~= spec_check(
                        old(results).rv(),
                        parse.rec(),
                        parse.line@,
                    )->Ok_0);
                }
            }
        },
        None => {
            if str_eq(parse.operation.as_str(), "LENGTH") {
                let pair = match parse.parse_length() {
                    Ok(p) => p,
                    Err(e) => {
                        return Err(e);
                    },
                };
                results.inodes.update_length(pair.0, pair.1);
                proof {
                    assert(results.rv() =~= spec_check(
                        old(results).rv(),
                        parse.rec(),
                        parse.line@,
                    )->Ok_0);
                }
            }
        },
    }
    Ok(())
}

/// Parse a specific line from the changelog.
/// Returns true if parsing should continue, false if it should stop
/// (because we may have passed the end date).
pub fn parse_line(line: &str, results: &mut ChangelogResults, timeline: &mut TimestampRange) -> (r:
    Result<bool, &'static str>)
    requires
        old(results).wf(),
    ensures
        final(results).wf(),
        match spec_step(old(results).rv(), *old(timeline), line@) {
            Ok(t) => {
                &&& r == Ok::<bool, &'static str>(!(t.2 is Stop))
                &&& final(results).rv() == t.0
                &&& *final(timeline) == t.1
            },
            Err(m) => {
                &&& r matches Err(e) && e@ == m
                &&& *final(results) == *old(results)
                &&& *final(timeline) == *old(timeline)
            },
        },
{
    let parse = match Parser::new(line) {
        Ok(p) => p,
        Err(e) => {
            return Err(e);
        },
    };
    if timeline.end_is_set && timeline.end < parse.timestamp {
        // Skip everything
        return Ok(false);
    }
    if timeline.start_is_set && timeline.start > parse.timestamp {
        // Skip just this line
        return Ok(true);
    }
    match check_inode_operation(&parse, results) {
        Ok(_) => (),
        Err(e) => {
            return Err(e);
        },
    }
    results.bump(parse.operation.as_str());
    if !timeline.start_is_set && (timeline.start > parse.timestamp || timeline.start == 0) {
        timeline.start = parse.timestamp;
    }
    if !timeline.end_is_set && timeline.end < parse.timestamp {
        timeline.end = parse.timestamp;
    }
    proof {
        assert(results.rv() =~= spec_step(old(results).rv(), *old(timeline), line@)->Ok_0.0);
    }
    Ok(true)
}

/// The rotation index a segment path sorts by: its numeric suffix after
/// the last dot, or zero when that does not parse.
pub open spec fn segment_key(s: Seq<char>) -> int {
    match numbers::parse_i32_spec(text::suffix_after_last(s, '.')) {
        Some(v) => v as int,
        None => 0,
    }
}

/// The rotation index of one segment path.
pub fn path_key(s: &str) -> (k: i32)
    ensures
        k as int == segment_key(s@),
{
    let n = s.unicode_len();
    let tail: &str = match text::find_last_ch(s, '.') {
        Some(i) => {
            proof {
                text::lemma_last_ch(s@, '.');
            }
            let t = s.substring_char(i + 1, n);
            assert(t@ == s@.skip(i + 1));
            t
        },
        None => s,
    };
    match numbers::parse_i32(tail) {
        Some(v) => v,
        None => 0,
    }
}

/// Order segment paths from lowest to highest rotation index, so that a
/// reverse walk visits segments newest-first.
pub fn sort_segment_paths(paths: &mut Vec<String>)
    ensures
        final(paths)@.to_multiset() == old(paths)@.to_multiset(),
        forall|a: int, b: int|
            0 <= a < b < final(paths)@.len() ==> segment_key(
                (#[trigger] final(paths)@[a])@,
            ) <= segment_key((#[trigger] final(paths)@[b])@),
{
    broadcast use vstd::seq_lib::group_to_multiset_ensures;
    broadcast use vstd::multiset::group_multiset_axioms;

    let mut out: Vec<String> = Vec::new();
    while paths.len() > 0
        invariant
            out@.to_multiset().add(paths@.to_multiset()) == old(paths)@.to_multiset(),
            forall|a: int, b: int|
                0 <= a < b < out@.len() ==> segment_key((#[trigger] out@[a])@) <= segment_key(
                    (#[trigger] out@[b])@),
            forall|a: int, b: int|
                0 <= a < out@.len() && 0 <= b < paths@.len() ==> segment_key(
                    (#[trigger] out@[a])@,
                ) <= segment_key((#[trigger] paths@[b])@),
        decreases paths@.len(),
    {
        let n = paths.len();
        let mut m: usize = 0;
        let mut i: usize = 1;
        while i < n
            invariant
                n == paths@.len(),
                0 <= m < i <= n,
                forall|j: int|
                    0 <= j < i ==> segment_key((paths@[m as int])@) <= segment_key(
                        (#[trigger] paths@[j])@),
            decreases n - i,
        {
            if path_key(paths[i].as_str()) < path_key(paths[m].as_str()) {
                m = i;
            }
            i += 1;
        }
        let ghost paths0 = paths@;
        let ghost out0 = out@;
        let e = paths.remove(m);
        out.push(e);
        proof {
            broadcast use vstd::multiset::group_multiset_axioms;

            vstd::seq_lib::to_multiset_remove(paths0, m as int);
            vstd::seq_lib::to_multiset_build(out0, paths0[m as int]);
            vstd::seq_lib::to_multiset_contains(paths0, paths0[m as int]);
            assert(paths@ == paths0.remove(m as int));
            assert(out@ == out0.push(paths0[m as int]));
            assert(paths0.contains(paths0[m as int]));
            assert(paths0.to_multiset().count(paths0[m as int]) > 0);
            assert(out@.to_multiset().add(paths@.to_multiset()) =~= out0.to_multiset().add(
                paths0.to_multiset(),
            ));
            assert(forall|b: int|
                0 <= b < paths@.len() ==> (#[trigger] paths@[b]) == (if b < m {
                    paths0[b]
                } else {
                    paths0[b + 1]
                }));
        }
    }
    proof {
        assert(paths@.to_multiset() =~= Multiset::<String>::empty());
        assert(out@.to_multiset() =~= old(paths)@.to_multiset());
    }
    *paths = out;
}

} // verus!
