//! The accuracy scorer: per-kind run-length totals of a finalized CIGAR and
//! the exact identity ratio they define.

use vstd::prelude::*;
use crate::cigar::{CigarOp, op_len};

verus! {

/// Sum of the `Match` run lengths of the trace.
pub open spec fn match_total(c: Seq<CigarOp>) -> nat
    decreases c.len(),
{
    if c.len() == 0 {
        0
    } else {
        match_total(c.drop_last()) + (match c.last() {
            CigarOp::Match(l) => l as nat,
            _ => 0,
        })
    }
}

/// Sum of all run lengths of the trace: matches, mismatches, insertions and
/// deletions together.
pub open spec fn len_total(c: Seq<CigarOp>) -> nat
    decreases c.len(),
{
    if c.len() == 0 {
        0
    } else {
        len_total(c.drop_last()) + op_len(c.last())
    }
}

proof fn lemma_totals_take_step(c: Seq<CigarOp>, i: int)
    requires
        0 <= i < c.len(),
    ensures
        match_total(c.take(i + 1)) == match_total(c.take(i)) + (match c[i] {
            CigarOp::Match(l) => l as nat,
            _ => 0,
        }),
        len_total(c.take(i + 1)) == len_total(c.take(i)) + op_len(c[i]),
{
    assert(c.take(i + 1).drop_last() =~= c.take(i));
    assert(c.take(i + 1).last() == c[i]);
}

/// The accuracy of a trace as an exact ratio: `matches` matched bases out of
/// `total` aligned bases. The scalar estimate is `matches / total`; keeping
/// the two counts leaves the division to the consumer.
#[derive(Debug, Clone, Copy, PartialEq, Eq, Structural)]
pub struct Accuracy {
    pub matches: u64,
    pub total: u64,
}

/// The accuracy that `calculate_accuracy` owes: `None` for a degenerate
/// trace whose runs sum to zero (the 0/0 case, flagged rather than emitted
/// as an undefined ratio), otherwise the exact pair of counts.
pub open spec fn accuracy_of(c: Seq<CigarOp>) -> Option<Accuracy> {
    if len_total(c) == 0 {
        None
    } else {
        Some(Accuracy { matches: match_total(c) as u64, total: len_total(c) as u64 })
    }
}

/// Sums the run lengths of the trace by kind and returns the identity ratio
/// `matches / (matches + mismatches + insertions + deletions)` as an exact
/// pair of counts; a trace whose runs sum to zero is degenerate and yields
/// `None`.
pub fn calculate_accuracy(cigar: &[CigarOp]) -> (r: Option<Accuracy>)
    requires
        cigar@.len() <= 0xffff_ffff,
    ensures
        r == accuracy_of(cigar@),
{
    let n = cigar.len();
    let mut matches: u64 = 0;
    let mut total: u64 = 0;
    let mut i: usize = 0;
    while i < n
        invariant
            n == cigar@.len() <= 0xffff_ffff,
            0 <= i <= n,
            matches == match_total(cigar@.take(i as int)),
            total == len_total(cigar@.take(i as int)),
            matches <= total <= i * 0xffff_ffff,
        decreases n - i,
    {
        proof {
            lemma_totals_take_step(cigar@, i as int);
        }
        let op = cigar[i];
        let l = op.get_length();
        if matches!(op, CigarOp::Match(_)) {
            matches += l as u64;
        }
        total += l as u64;
        i += 1;
    }
    proof {
        assert(cigar@.take(n as int) =~= cigar@);
    }
    if total == 0 {
        None
    } else {
        Some(Accuracy { matches, total })
    }
}

} // verus!
