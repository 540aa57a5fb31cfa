//! Overlaps between reads and the fold of a pairwise aligner's raw result
//! back into an overlap's coordinates: trim application, strand-aware
//! query-side correction, and the stored trace and accuracy.

use vstd::prelude::*;
use crate::cigar::{CigarOp, AlignError};
use crate::span::{tspan, qspan, lemma_span_take_step, lemma_span_take_full};
use crate::accuracy::{Accuracy, accuracy_of, calculate_accuracy};

verus! {

/// Orientation of the query relative to the target: `Reverse` means the
/// query must be reverse-complemented before it aligns against the target
/// as given.
#[derive(Debug, Clone, Copy, PartialEq, Eq, Structural)]
pub enum Strand {
    Forward,
    Reverse,
}

/// A candidate pairwise alignment between two reads: read indices,
/// half-open base ranges on each read, the strand, and the trace and
/// accuracy that refinement populates exactly once.
#[derive(Debug, Clone)]
pub struct Overlap {
    pub qid: u32,
    pub tid: u32,
    pub qstart: u32,
    pub qend: u32,
    pub tstart: u32,
    pub tend: u32,
    pub strand: Strand,
    pub cigar: Option<Vec<CigarOp>>,
    pub accuracy: Option<Accuracy>,
}

impl Overlap {
    /// A freshly loaded overlap: coordinates only, no trace yet.
    pub fn new(
        qid: u32,
        qstart: u32,
        qend: u32,
        strand: Strand,
        tid: u32,
        tstart: u32,
        tend: u32,
    ) -> (r: Overlap)
        ensures
            r.qid == qid && r.qstart == qstart && r.qend == qend,
            r.tid == tid && r.tstart == tstart && r.tend == tend,
            r.strand == strand,
            r.cigar is None && r.accuracy is None,
    {
        Overlap { qid, tid, qstart, qend, tstart, tend, strand, cigar: None, accuracy: None }
    }
}

/// The raw output of the pairwise aligner: a trace plus four trim counts,
/// stating how many leading/trailing bases of the given target and query
/// sub-sequences fall outside the aligned interior.
#[derive(Debug, Clone)]
pub struct AlignmentResult {
    pub cigar: Vec<CigarOp>,
    pub tstart: u32,
    pub tend: u32,
    pub qstart: u32,
    pub qend: u32,
}

impl AlignmentResult {
    pub fn new(cigar: Vec<CigarOp>, tstart: u32, tend: u32, qstart: u32, qend: u32) -> (r: Self)
        ensures
            r.cigar == cigar,
            r.tstart == tstart && r.tend == tend,
            r.qstart == qstart && r.qend == qend,
    {
        AlignmentResult { cigar, tstart, tend, qstart, qend }
    }
}

/// Whether the aligner's result is consistent with the overlap it refines:
/// the trims leave a non-negative interior on both sides, and the trace
/// walks exactly that interior on the target and on the query.
pub open spec fn trace_fits(o: Overlap, res: AlignmentResult) -> bool {
    &&& res.tstart + res.tend <= o.tend - o.tstart
    &&& res.qstart + res.qend <= o.qend - o.qstart
    &&& tspan(res.cigar@) == o.tend - o.tstart - res.tstart - res.tend
    &&& qspan(res.cigar@) == o.qend - o.qstart - res.qstart - res.qend
}

/// Checks that the target positions consumed by the trace are exactly
/// `expect`.
fn tspan_matches(c: &Vec<CigarOp>, expect: u32) -> (b: bool)
    ensures
        b <==> tspan(c@) == expect,
{
    let n = c.len();
    let mut acc: u32 = 0;
    let mut i: usize = 0;
    while i < n
        invariant
            n == c@.len(),
            0 <= i <= n,
            acc == tspan(c@.take(i as int)),
            acc <= expect,
        decreases n - i,
    {
        proof {
            lemma_span_take_step(c@, i as int);
        }
        let op = c[i];
        let tc: u32 = match op {
            CigarOp::Insertion(_) => 0,
            _ => op.get_length(),
        };
        if tc > expect - acc {
            proof {
                lemma_span_take_full(c@, i + 1);
            }
            return false;
        }
        acc += tc;
        i += 1;
    }
    proof {
        assert(c@.take(n as int) =~= c@);
    }
    acc == expect
}

/// Checks that the query positions consumed by the trace are exactly
/// `expect`.
fn qspan_matches(c: &Vec<CigarOp>, expect: u32) -> (b: bool)
    ensures
        b <==> qspan(c@) == expect,
{
    let n = c.len();
    let mut acc: u32 = 0;
    let mut i: usize = 0;
    while i < n
        invariant
            n == c@.len(),
            0 <= i <= n,
            acc == qspan(c@.take(i as int)),
            acc <= expect,
        decreases n - i,
    {
        proof {
            lemma_span_take_step(c@, i as int);
        }
        let op = c[i];
        let qc: u32 = match op {
            CigarOp::Deletion(_) => 0,
            _ => op.get_length(),
        };
        if qc > expect - acc {
            proof {
                lemma_span_take_full(c@, i + 1);
            }
            return false;
        }
        acc += qc;
        i += 1;
    }
    proof {
        assert(c@.take(n as int) =~= c@);
    }
    acc == expect
}

/// Folds the aligner's raw result into the overlap, in place and exactly
/// once: target trims apply directly; query trims apply strand-dependently,
/// since a reverse-strand query was handed to the aligner
/// reverse-complemented, so the aligner's leading trim belongs to the end of
/// the original-orientation query and vice versa. Stores the raw trace and
/// its accuracy. A result whose trims or trace do not fit the overlap's
/// ranges is a contract violation by the aligner and leaves the overlap
/// untouched with `InconsistentAlignment`.
///
/// On success the refined overlap satisfies coordinate consistency
/// (`tstart <= tend <= tlen`, `qstart <= qend <= qlen`) and
/// CIGAR/coordinate agreement (the trace's target and query walks equal the
/// refined ranges).
pub fn refine_overlap(o: &mut Overlap, res: AlignmentResult, tlen: u32, qlen: u32) -> (r: Result<
    (),
    AlignError,
>)
    requires
        old(o).tstart <= old(o).tend <= tlen,
        old(o).qstart <= old(o).qend <= qlen,
        res.cigar@.len() <= 0xffff_ffff,
    ensures
        r is Ok <==> trace_fits(*old(o), res),
        r is Err ==> *final(o) == *old(o) && r == Err::<(), AlignError>(
            AlignError::InconsistentAlignment,
        ),
        r is Ok ==> {
            &&& final(o).qid == old(o).qid && final(o).tid == old(o).tid && final(o).strand == old(
                o,
            ).strand
            &&& final(o).tstart == old(o).tstart + res.tstart
            &&& final(o).tend == old(o).tend - res.tend
            &&& old(o).strand == Strand::Forward ==> final(o).qstart == old(o).qstart + res.qstart
                && final(o).qend == old(o).qend - res.qend
            &&& old(o).strand == Strand::Reverse ==> final(o).qstart == old(o).qstart + res.qend
                && final(o).qend == old(o).qend - res.qstart
            &&& final(o).cigar == Some(res.cigar)
            &&& final(o).accuracy == accuracy_of(res.cigar@)
            &&& final(o).tstart <= final(o).tend <= tlen
            &&& final(o).qstart <= final(o).qend <= qlen
            &&& tspan(res.cigar@) == final(o).tend - final(o).tstart
            &&& qspan(res.cigar@) == final(o).qend - final(o).qstart
        },
{
    let dt = o.tend - o.tstart;
    let dq = o.qend - o.qstart;
    if res.tstart > dt || res.tend > dt - res.tstart {
        return Err(AlignError::InconsistentAlignment);
    }
    if res.qstart > dq || res.qend > dq - res.qstart {
        return Err(AlignError::InconsistentAlignment);
    }
    if !tspan_matches(&res.cigar, dt - res.tstart - res.tend) {
        return Err(AlignError::InconsistentAlignment);
    }
    if !qspan_matches(&res.cigar, dq - res.qstart - res.qend) {
        return Err(AlignError::InconsistentAlignment);
    }
    o.accuracy = calculate_accuracy(res.cigar.as_slice());
    o.tstart = o.tstart + res.tstart;
    o.tend = o.tend - res.tend;
    match o.strand {
        Strand::Forward => {
            o.qstart = o.qstart + res.qstart;
            o.qend = o.qend - res.qend;
        },
        Strand::Reverse => {
            o.qstart = o.qstart + res.qend;
            o.qend = o.qend - res.qstart;
        },
    }
    o.cigar = Some(res.cigar);
    Ok(())
}

} // verus!
