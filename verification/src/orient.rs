//! The orientation normalizer: re-expresses a CIGAR in the coordinate frame
//! (target- or query-relative) and directionality a consumer requires.

use vstd::prelude::*;
use crate::cigar::{CigarOp, rev_op};
use crate::overlap::Strand;

verus! {

/// The CIGAR that `get_proper_cigar` owes: unchanged in the target frame;
/// in the query frame every op is frame-reversed, and for a reverse-strand
/// query the op order flips as well, so the trace stays left-to-right in the
/// query's own coordinates.
pub open spec fn oriented(c: Seq<CigarOp>, is_target: bool, strand: Strand) -> Seq<CigarOp> {
    if is_target {
        c
    } else if strand == Strand::Forward {
        Seq::new(c.len(), |i: int| rev_op(c[i]))
    } else {
        Seq::new(c.len(), |i: int| rev_op(c[c.len() - 1 - i]))
    }
}

/// Re-expressing a query-frame CIGAR in the query frame once more, with the
/// same strand, reproduces the original trace: frame reversal is an
/// involution and so is order reversal.
pub proof fn lemma_orientation_round_trip(c: Seq<CigarOp>, strand: Strand)
    ensures
        oriented(oriented(c, false, strand), false, strand) == c,
{
    assert(oriented(oriented(c, false, strand), false, strand) =~= c);
}

/// Produces the CIGAR in the frame the consumer asks for: an unmodified copy
/// for the target perspective; otherwise each op frame-reversed, with the op
/// order additionally flipped when the strand is `Reverse`. A pure transform
/// that never fails.
pub fn get_proper_cigar(cigar: &[CigarOp], is_target: bool, strand: Strand) -> (r: Vec<CigarOp>)
    ensures
        r@ == oriented(cigar@, is_target, strand),
{
    let n = cigar.len();
    let mut out: Vec<CigarOp> = Vec::new();
    if is_target {
        let mut i: usize = 0;
        while i < n
            invariant
                n == cigar@.len(),
                0 <= i <= n,
                out@ =~= cigar@.take(i as int),
            decreases n - i,
        {
            out.push(cigar[i]);
            i += 1;
        }
        assert(out@ =~= cigar@);
        return out;
    }
    if matches!(strand, Strand::Reverse) {
        let mut i: usize = 0;
        while i < n
            invariant
                n == cigar@.len(),
                0 <= i <= n,
                out@.len() == i,
                forall|j: int| 0 <= j < i ==> out@[j] == rev_op(cigar@[n - 1 - j]),
            decreases n - i,
        {
            out.push(cigar[n - 1 - i].reverse());
            i += 1;
        }
        assert(out@ =~= oriented(cigar@, false, strand));
        out
    } else {
        let mut i: usize = 0;
        while i < n
            invariant
                n == cigar@.len(),
                0 <= i <= n,
                out@.len() == i,
                forall|j: int| 0 <= j < i ==> out@[j] == rev_op(cigar@[j]),
            decreases n - i,
        {
            out.push(cigar[i].reverse());
            i += 1;
        }
        assert(out@ =~= oriented(cigar@, false, strand));
        out
    }
}

} // verus!
