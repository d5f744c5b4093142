//! Parses one journal record of the form
//! `<id>: <timestamp>|<OPERATION>(<args>)[:<trailing-field>]`.
//! Each field extractor has a spec-level mirror over the line's character
//! sequence; errors carry the message that names the malformed field.

use vstd::prelude::*;

use crate::numbers::{parse_i64, parse_i64_spec, parse_u64, parse_u64_spec};
use crate::text::{
    find_ch, first_ch, prefix_until, split_ch_once, split_ch_spec, split_pair_once,
    split_pair_spec, take_until, trim_spec, trim_str,
};

verus! {

/// Struct to hold the parsed line information
pub struct Parser<'a> {
    /// The timestamp of the log line, in Unix seconds
    pub timestamp: i64,
    /// The changelog number
    pub _id: u64,
    /// The operation performed
    pub operation: String,
    /// The inode number, if any
    pub inode: Option<u64>,
    /// The original line
    pub line: &'a str,
}

/// The fields a well-formed record carries, over the line's characters.
pub struct RecordFields {
    pub id: u64,
    pub ts: i64,
    pub op: Seq<char>,
    pub inode: Option<u64>,
}

pub open spec fn msg_sep() -> Seq<char> {
    "Line format incorrect, expected ':' separator"@
}

pub open spec fn msg_ts() -> Seq<char> {
    "Failed to parse timestamp as i64"@
}

pub open spec fn msg_id() -> Seq<char> {
    "Failed to parse ID as u64"@
}

pub open spec fn msg_pipe() -> Seq<char> {
    "Line format incorrect, expected '|' separator"@
}

pub open spec fn msg_no_open() -> Seq<char> {
    "Could not find '(' in length operation line"@
}

pub open spec fn msg_no_close() -> Seq<char> {
    "Could not find ')' in length operation line"@
}

pub open spec fn msg_no_comma() -> Seq<char> {
    "Could not find ',' in length operation line"@
}

pub open spec fn msg_bad_inode() -> Seq<char> {
    "Failed to parse inode into u64 in lenght operation."@
}

pub open spec fn msg_bad_length() -> Seq<char> {
    "Failed to parse length into u64."@
}

/// The timestamp field: the first `|`-delimited field after the single
/// `": "` separator, parsed as Unix seconds.
pub open spec fn spec_timestamp(s: Seq<char>) -> Result<i64, Seq<char>> {
    match split_pair_spec(s, ':', ' ') {
        None => Err(msg_sep()),
        Some(parts) => match parse_i64_spec(take_until(parts.1, '|')) {
            Some(t) => Ok(t),
            None => Err(msg_ts()),
        },
    }
}

/// The sequence id: the text before the single `": "` separator.
pub open spec fn spec_id(s: Seq<char>) -> Result<u64, Seq<char>> {
    match split_pair_spec(s, ':', ' ') {
        None => Err(msg_sep()),
        Some(parts) => match parse_u64_spec(parts.0) {
            Some(id) => Ok(id),
            None => Err(msg_id()),
        },
    }
}

/// The operation name: the text between the single `|` and the first `(`
/// after it.
pub open spec fn spec_operation(s: Seq<char>) -> Result<Seq<char>, Seq<char>> {
    match split_ch_spec(s, '|') {
        None => Err(msg_pipe()),
        Some(parts) => Ok(take_until(parts.1, '(')),
    }
}

/// The trailing inode field: the text after the single `"):"` marker,
/// trimmed and parsed. `WRITE` and `TRUNC` carry a temporary id there, so
/// they never yield an inode; neither absence nor a parse failure is an
/// error.
pub open spec fn spec_inode(s: Seq<char>, op: Seq<char>) -> Option<u64> {
    if op == "WRITE"@ || op == "TRUNC"@ {
        None
    } else {
        match split_pair_spec(s, ')', ':') {
            None => None,
            Some(parts) => parse_u64_spec(trim_spec(parts.1)),
        }
    }
}

/// A whole record: timestamp, id and operation must parse, in that order
/// of failure; the inode is optional.
pub open spec fn spec_record(s: Seq<char>) -> Result<RecordFields, Seq<char>> {
    match spec_timestamp(s) {
        Err(e) => Err(e),
        Ok(ts) => match spec_id(s) {
            Err(e) => Err(e),
            Ok(id) => match spec_operation(s) {
                Err(e) => Err(e),
                Ok(op) => Ok(RecordFields { id, ts, op, inode: spec_inode(s, op) }),
            },
        },
    }
}

/// The `LENGTH` argument pair: the text strictly between the first `(`
/// and the first `)`, split at its first comma into inode and length.
pub open spec fn spec_length(s: Seq<char>) -> Result<(u64, u64), Seq<char>> {
    match first_ch(s, '(') {
        None => Err(msg_no_open()),
        Some(a) => match first_ch(s, ')') {
            None => Err(msg_no_close()),
            Some(b) => {
                let mid = if a + 1 <= b {
                    s.subrange(a + 1, b)
                } else {
                    Seq::<char>::empty()
                };
                match first_ch(mid, ',') {
                    None => Err(msg_no_comma()),
                    Some(c) => match parse_u64_spec(mid.take(c)) {
                        None => Err(msg_bad_inode()),
                        Some(ino) => match parse_u64_spec(mid.skip(c + 1)) {
                            None => Err(msg_bad_length()),
                            Some(len) => Ok((ino, len)),
                        },
                    },
                }
            },
        },
    }
}

/// Parse the timestamp from a log line.
pub fn parse_timestamp(line: &str) -> (r: Result<i64, &'static str>)
    ensures
        match spec_timestamp(line@) {
            Ok(t) => r == Ok::<i64, &'static str>(t),
            Err(m) => r matches Err(e) && e@ == m,
        },
{
    match split_pair_once(line, ':', ' ') {
        None => Err("Line format incorrect, expected ':' separator"),
        Some((_, rest)) => {
            let field = prefix_until(rest, '|');
            match parse_i64(field) {
                Some(t) => Ok(t),
                None => Err("Failed to parse timestamp as i64"),
            }
        },
    }
}

/// Parse the changelog number from a log line.
pub fn parse_id(line: &str) -> (r: Result<u64, &'static str>)
    ensures
        match spec_id(line@) {
            Ok(id) => r == Ok::<u64, &'static str>(id),
            Err(m) => r matches Err(e) && e@ == m,
        },
{
    match split_pair_once(line, ':', ' ') {
        None => Err("Line format incorrect, expected ':' separator"),
        Some((before, _)) => match parse_u64(before) {
            Some(id) => Ok(id),
            None => Err("Failed to parse ID as u64"),
        },
    }
}

/// Parse the operation from a log line.
pub fn parse_operation(line: &str) -> (r: Result<String, &'static str>)
    ensures
        match spec_operation(line@) {
            Ok(op) => r matches Ok(o) && o@ == op,
            Err(m) => r matches Err(e) && e@ == m,
        },
{
    match split_ch_once(line, '|') {
        None => Err("Line format incorrect, expected '|' separator"),
        Some((_, after)) => {
            let op = prefix_until(after, '(');
            Ok(String::from_str(op))
        },
    }
}

/// Parse the inode number from a log line, if possible. Does not return
/// an inode for `WRITE` or `TRUNC` operations, since their trailing
/// `"):"` field holds a temporary id instead.
pub fn parse_inode(line: &str, operation: &str) -> (r: Option<u64>)
    ensures
        r == spec_inode(line@, operation@),
{
    if crate::str_eq(operation, "WRITE") || crate::str_eq(operation, "TRUNC") {
        return None;
    }
    match split_pair_once(line, ')', ':') {
        None => None,
        Some((_, after)) => parse_u64(trim_str(after)),
    }
}

impl<'a> Parser<'a> {
    /// The record fields this parser extracted, as spec values.
    pub open spec fn rec(self) -> RecordFields {
        RecordFields { id: self._id, ts: self.timestamp, op: self.operation@, inode: self.inode }
    }

    /// Create a new parser from a log line.
    /// The line is parsed and the timestamp, id, operation and inode (if
    /// possible) are extracted.
    pub fn new(line: &'a str) -> (r: Result<Self, &'static str>)
        ensures
            match spec_record(line@) {
                Ok(v) => r matches Ok(p) && p.rec() == v && p.line@ == line@,
                Err(m) => r matches Err(e) && e@ == m,
            },
    {
        let timestamp = match parse_timestamp(line) {
            Ok(t) => t,
            Err(e) => {
                return Err(e);
            },
        };
        let _id = match parse_id(line) {
            Ok(i) => i,
            Err(e) => {
                return Err(e);
            },
        };
        let operation = match parse_operation(line) {
            Ok(o) => o,
            Err(e) => {
                return Err(e);
            },
        };
        let inode = parse_inode(line, operation.as_str());
        Ok(Self { timestamp, _id, operation, inode, line })
    }

    /// Parse the `LENGTH` operation and return the inode and length.
    pub fn parse_length(&self) -> (r: Result<(u64, u64), &'static str>)
        ensures
            match spec_length(self.line@) {
                Ok(v) => r == Ok::<(u64, u64), &'static str>(v),
                Err(m) => r matches Err(e) && e@ == m,
            },
    {
        let a = match find_ch(self.line, '(') {
            Some(a) => a,
            None => {
                return Err("Could not find '(' in length operation line");
            },
        };
        let b = match find_ch(self.line, ')') {
            Some(b) => b,
            None => {
                return Err("Could not find ')' in length operation line");
            },
        };
        proof {
            crate::text::lemma_first_ch(self.line@, '(');
            crate::text::lemma_first_ch(self.line@, ')');
        }
        let mid: &str = if a < b {
            self.line.substring_char(a + 1, b)
        } else {
            ""
        };
        proof {
            if a + 1 <= b {
                assert(mid@ == self.line@.subrange(a + 1, b as int));
            } else {
                reveal_strlit("");
                assert(mid@ =~= Seq::<char>::empty());
            }
        }
        let c = match find_ch(mid, ',') {
            Some(c) => c,
            None => {
                return Err("Could not find ',' in length operation line");
            },
        };
        proof {
            crate::text::lemma_first_ch(mid@, ',');
        }
        let n = mid.unicode_len();
        let inode_part = mid.substring_char(0, c);
        let length_part = mid.substring_char(c + 1, n);
        proof {
            assert(inode_part@ =~= mid@.take(c as int));
            assert(length_part@ =~= mid@.skip(c + 1));
        }
        let inode: u64 = match parse_u64(inode_part) {
            Some(i) => i,
            None => {
                return Err("Failed to parse inode into u64 in lenght operation.");
            },
        };
        let length: u64 = match parse_u64(length_part) {
            Some(l) => l,
            None => {
                return Err("Failed to parse length into u64.");
            },
        };
        Ok((inode, length))
    }

    /// Parse the line for a directory or file and update the counters.
    /// Only works for CREATE operations. A count at the largest
    /// representable value stays there.
    pub fn parse_line_for_dir_file(&self, dirs: &mut u64, files: &mut u64)
        ensures
            *final(dirs) == if crate::text::has_triple(self.line@, ',', 'd', ',') {
                crate::sat_add_u64(*old(dirs), 1)
            } else {
                *old(dirs)
            },
            *final(files) == if !crate::text::has_triple(self.line@, ',', 'd', ',')
                && crate::text::has_triple(self.line@, ',', 'f', ',') {
                crate::sat_add_u64(*old(files), 1)
            } else {
                *old(files)
            },
    {
        if crate::text::contains_triple(self.line, ',', 'd', ',') {
            *dirs = (*dirs).saturating_add(1);
        } else if crate::text::contains_triple(self.line, ',', 'f', ',') {
            *files = (*files).saturating_add(1);
        }
    }
}

} // verus!
