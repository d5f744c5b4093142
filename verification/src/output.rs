//! The computable parts of the final report: totals over the aggregates,
//! the per-operation counts sorted for display, and byte amounts
//! rendered with 1024-based magnitude suffixes.

use vstd::prelude::*;

use crate::numbers::{append_dec, dec_chars, digit_ch};
use crate::parser::inodes::Inode;
use crate::{sat_add_u64, ChangelogResults};
use vstd::arithmetic::div_mod::{lemma_div_denominator, lemma_div_is_ordered_by_denominator};
use vstd::multiset::Multiset;

verus! {

/// The written bytes accumulated over a run of inode entries, saturating
/// at the largest representable value.
pub open spec fn written_sum(entries: Seq<Inode>) -> u64
    decreases entries.len(),
{
    if entries.len() == 0 {
        0u64
    } else {
        sat_add_u64(written_sum(entries.drop_last()), entries.last().written)
    }
}

/// The total of the per-operation counts, saturating at the largest
/// representable value.
pub open spec fn counts_sum(ops: Seq<(Seq<char>, u64)>) -> u64
    decreases ops.len(),
{
    if ops.len() == 0 {
        0u64
    } else {
        sat_add_u64(counts_sum(ops.drop_last()), ops.last().1)
    }
}

/// The sum of the `written` fields over the whole inode history.
pub fn written_total(results: &ChangelogResults) -> (r: u64)
    ensures
        r == written_sum(results.inodes.all_v()),
{
    let v = results.inodes.history();
    let n = v.len();
    let mut acc: u64 = 0;
    let mut i: usize = 0;
    while i < n
        invariant
            n == v@.len(),
            v@ == results.inodes.all_v(),
            0 <= i <= n,
            acc == written_sum(v@.take(i as int)),
        decreases n - i,
    {
        proof {
            assert(v@.take(i + 1).drop_last() =~= v@.take(i as int));
        }
        acc = acc.saturating_add(v[i].written);
        i += 1;
    }
    proof {
        assert(v@.take(n as int) =~= v@);
    }
    acc
}

/// The total number of operations counted.
pub fn total_operations(results: &ChangelogResults) -> (r: u64)
    ensures
        r == counts_sum(results.rv().ops),
{
    let n = results.op_count.len();
    let mut acc: u64 = 0;
    let mut i: usize = 0;
    while i < n
        invariant
            n == results.op_count@.len(),
            0 <= i <= n,
            acc == counts_sum(results.rv().ops.take(i as int)),
        decreases n - i,
    {
        proof {
            assert(results.rv().ops.take(i + 1).drop_last() =~= results.rv().ops.take(i as int));
            assert(results.rv().ops.take(i + 1).last() == results.rv().ops[i as int]);
        }
        acc = acc.saturating_add(results.op_count[i].1);
        i += 1;
    }
    proof {
        assert(results.rv().ops.take(n as int) =~= results.rv().ops);
    }
    acc
}

/// The per-operation counts ordered by descending count, ties in any
/// order, for the final report.
pub fn sorted_op_counts(results: &ChangelogResults) -> (r: Vec<(String, u64)>)
    ensures
        r@.to_multiset() == results.op_count@.to_multiset(),
        forall|a: int, b: int| 0 <= a < b < r@.len() ==> (#[trigger] r@[a]).1 >= (#[trigger] r@[b]).1,
{
    broadcast use vstd::seq_lib::group_to_multiset_ensures;
    broadcast use vstd::multiset::group_multiset_axioms;

    let n = results.op_count.len();
    let mut rest: Vec<(String, u64)> = Vec::new();
    let mut i: usize = 0;
    while i < n
        invariant
            n == results.op_count@.len(),
            0 <= i <= n,
            rest@ == results.op_count@.take(i as int),
        decreases n - i,
    {
        let key = results.op_count[i].0.clone();
        let count = results.op_count[i].1;
        rest.push((key, count));
        proof {
            assert(results.op_count@.take(i + 1) =~= results.op_count@.take(i as int).push(
                results.op_count@[i as int],
            ));
        }
        i += 1;
    }
    proof {
        assert(results.op_count@.take(n as int) =~= results.op_count@);
    }
    let mut out: Vec<(String, u64)> = Vec::new();
    while rest.len() > 0
        invariant
            out@.to_multiset().add(rest@.to_multiset()) == results.op_count@.to_multiset(),
            forall|a: int, b: int|
                0 <= a < b < out@.len() ==> (#[trigger] out@[a]).1 >= (#[trigger] out@[b]).1,
            forall|a: int, b: int|
                0 <= a < out@.len() && 0 <= b < rest@.len() ==> (#[trigger] out@[a]).1 >= (
                #[trigger] rest@[b]).1,
        decreases rest@.len(),
    {
        let k = rest.len();
        let mut m: usize = 0;
        let mut j: usize = 1;
        while j < k
            invariant
                k == rest@.len(),
                0 <= m < j <= k,
                forall|q: int| 0 <= q < j ==> rest@[m as int].1 >= (#[trigger] rest@[q]).1,
            decreases k - j,
        {
            if rest[j].1 > rest[m].1 {
                m = j;
            }
            j += 1;
        }
        let ghost rest0 = rest@;
        let ghost out0 = out@;
        let e = rest.remove(m);
        out.push(e);
        proof {
            broadcast use vstd::multiset::group_multiset_axioms;

            vstd::seq_lib::to_multiset_remove(rest0, m as int);
            vstd::seq_lib::to_multiset_build(out0, rest0[m as int]);
            vstd::seq_lib::to_multiset_contains(rest0, rest0[m as int]);
            assert(rest@ == rest0.remove(m as int));
            assert(out@ == out0.push(rest0[m as int]));
            assert(rest0.contains(rest0[m as int]));
            assert(rest0.to_multiset().count(rest0[m as int]) > 0);
            assert(out@.to_multiset().add(rest@.to_multiset()) =~= out0.to_multiset().add(
                rest0.to_multiset(),
            ));
            assert(forall|b: int|
                0 <= b < rest@.len() ==> (#[trigger] rest@[b]) == (if b < m {
                    rest0[b]
                } else {
                    rest0[b + 1]
                }));
        }
    }
    proof {
        assert(rest@.to_multiset() =~= Multiset::<(String, u64)>::empty());
        assert(out@.to_multiset() =~= results.op_count@.to_multiset());
    }
    out
}

/// The power of 1024 used for a magnitude step.
pub open spec fn pow1024(k: int) -> int
    decreases k,
{
    if k <= 0 {
        1
    } else {
        1024 * pow1024(k - 1)
    }
}

/// How often the byte amount is divided by 1024 before display: until it
/// drops below 1024, at most six times.
pub open spec fn mag_rec(size: int, k: int) -> int
    decreases 7 - k,
{
    if size >= 1024 && k < 6 {
        mag_rec(size / 1024, k + 1)
    } else {
        k
    }
}

/// The displayed amount in hundredths: the byte amount scaled by its
/// magnitude's power of 1024, rounded half up to two decimal places.
pub open spec fn scaled_hundredths(bytes: u64) -> int {
    let k = mag_rec(bytes as int, 0);
    (bytes * 100 + pow1024(k) / 2) / pow1024(k)
}

/// The unit suffix for a magnitude step.
pub open spec fn unit_suffix(k: int) -> Seq<char> {
    if k <= 0 {
        "Bytes"@
    } else if k == 1 {
        "KB"@
    } else if k == 2 {
        "MB"@
    } else if k == 3 {
        "GB"@
    } else if k == 4 {
        "TB"@
    } else if k == 5 {
        "PB"@
    } else {
        "EB"@
    }
}

/// The rendering `format_bytes` produces: the scaled amount with two
/// decimal places, a space, and the magnitude's unit suffix.
pub open spec fn format_bytes_spec(bytes: u64) -> Seq<char> {
    let r = scaled_hundredths(bytes);
    dec_chars(r / 100) + "."@ + seq![digit_ch((r % 100) / 10), digit_ch((r % 100) % 10)] + " "@
        + unit_suffix(mag_rec(bytes as int, 0))
}

/// Format a byte amount into a human-readable string with a 1024-based
/// magnitude suffix and two decimal places.
pub fn format_bytes(bytes: u64) -> (r: String)
    ensures
        r@ == format_bytes_spec(bytes),
{
    let mut size: u64 = bytes;
    let mut k: usize = 0;
    while size >= 1024 && k < 6
        invariant
            0 <= k <= 6,
            size == bytes as int / pow1024(k as int),
            mag_rec(bytes as int, 0) == mag_rec(size as int, k as int),
            pow1024(k as int) >= 1,
            k >= 1 ==> pow1024(k as int) >= 1024,
            k >= 1 ==> pow1024(k as int) <= bytes,
        decreases 6 - k,
    {
        proof {
            let p = pow1024(k as int);
            lemma_div_denominator(bytes as int, p, 1024);
            assert(p * 1024 == pow1024(k + 1));
            assert(bytes as int / pow1024(k + 1) == size as int / 1024);
            vstd::arithmetic::div_mod::lemma_fundamental_div_mod(bytes as int, p);
            assert(p * (size as int) >= p * 1024) by (nonlinear_arith)
                requires
                    size >= 1024,
                    p >= 1,
            ;
            assert(pow1024(k + 1) <= bytes);
        }
        size = size / 1024;
        k += 1;
    }
    let ghost kk = mag_rec(bytes as int, 0);
    proof {
        assert(kk == k as int);
    }
    let div: u64 = pow1024_exec(k);
    let num: u128 = (bytes as u128) * 100 + (div as u128) / 2;
    let r100_wide: u128 = num / (div as u128);
    proof {
        assert(r100_wide == scaled_hundredths(bytes));
        if k == 0 {
            assert(size < 1024);
            assert(r100_wide <= 1023 * 100);
        } else {
            assert(num <= 1024 * bytes as int);
            lemma_div_is_ordered_by_denominator(num as int, 1024, div as int);
            vstd::arithmetic::div_mod::lemma_div_is_ordered(
                num as int,
                1024 * bytes as int,
                1024,
            );
            vstd::arithmetic::div_mod::lemma_div_multiples_vanish(bytes as int, 1024);
            assert(r100_wide <= bytes);
        }
    }
    let r100: u64 = r100_wide as u64;
    let mut out = String::new();
    append_dec(&mut out, r100 / 100);
    out.append(".");
    push_digit_pair(&mut out, (r100 % 100) / 10, (r100 % 100) % 10);
    out.append(" ");
    let unit: &str = if k == 0 {
        "Bytes"
    } else if k == 1 {
        "KB"
    } else if k == 2 {
        "MB"
    } else if k == 3 {
        "GB"
    } else if k == 4 {
        "TB"
    } else if k == 5 {
        "PB"
    } else {
        "EB"
    };
    out.append(unit);
    proof {
        assert(out@ =~= format_bytes_spec(bytes));
    }
    out
}

/// `1024^k` for the magnitude steps in range.
fn pow1024_exec(k: usize) -> (r: u64)
    requires
        k <= 6,
    ensures
        r == pow1024(k as int),
        1 <= r <= 0x1000_0000_0000_0000,
        k >= 1 ==> r >= 1024,
{
    proof {
        assert(pow1024(0) == 1);
        assert(pow1024(1) == 1024);
        assert(pow1024(2) == 0x10_0000);
        assert(pow1024(3) == 0x4000_0000);
        assert(pow1024(4) == 0x100_0000_0000);
        assert(pow1024(5) == 0x4_0000_0000_0000);
        assert(pow1024(6) == 0x1000_0000_0000_0000);
    }
    if k == 0 {
        1
    } else if k == 1 {
        1024
    } else if k == 2 {
        0x10_0000
    } else if k == 3 {
        0x4000_0000
    } else if k == 4 {
        0x100_0000_0000
    } else if k == 5 {
        0x4_0000_0000_0000
    } else {
        0x1000_0000_0000_0000
    }
}

/// Appends the two decimal-place digits.
fn push_digit_pair(out: &mut String, hi: u64, lo: u64)
    requires
        hi < 10,
        lo < 10,
    ensures
        final(out)@ == old(out)@ + seq![digit_ch(hi as int), digit_ch(lo as int)],
{
    let mut tail = String::new();
    append_dec(&mut tail, hi);
    append_dec(&mut tail, lo);
    out.append(tail.as_str());
    proof {
        assert(out@ =~= old(out)@ + seq![digit_ch(hi as int), digit_ch(lo as int)]);
    }
}

} // verus!
