//! Consumed-position accounting for CIGAR sequences: how many target and
//! query bases a trace walks over, and the lemmas that let loops reason
//! about prefixes and in-place edits of a trace.

use vstd::prelude::*;
use crate::cigar::{CigarOp, tconsume, qconsume};

verus! {

/// Total number of target positions consumed by the trace: the sum of the
/// lengths of its `Match`, `Mismatch` and `Deletion` runs.
pub open spec fn tspan(c: Seq<CigarOp>) -> nat
    decreases c.len(),
{
    if c.len() == 0 {
        0
    } else {
        tspan(c.drop_last()) + tconsume(c.last())
    }
}

/// Total number of query positions consumed by the trace: the sum of the
/// lengths of its `Match`, `Mismatch` and `Insertion` runs.
pub open spec fn qspan(c: Seq<CigarOp>) -> nat
    decreases c.len(),
{
    if c.len() == 0 {
        0
    } else {
        qspan(c.drop_last()) + qconsume(c.last())
    }
}

/// The target and query positions consumed by the trace, as one pass over
/// it: exactly `(tspan, qspan)` of the trace.
pub fn trace_spans(c: &[CigarOp]) -> (r: (u64, u64))
    requires
        c@.len() <= 0xffff_ffff,
    ensures
        r.0 == tspan(c@),
        r.1 == qspan(c@),
{
    let n = c.len();
    let mut t: u64 = 0;
    let mut q: u64 = 0;
    let mut i: usize = 0;
    while i < n
        invariant
            n == c@.len() <= 0xffff_ffff,
            0 <= i <= n,
            t == tspan(c@.take(i as int)),
            q == qspan(c@.take(i as int)),
            t <= i * 0xffff_ffff,
            q <= i * 0xffff_ffff,
        decreases n - i,
    {
        proof {
            lemma_span_take_step(c@, i as int);
        }
        let op = c[i];
        let l = op.get_length() as u64;
        match op {
            CigarOp::Insertion(_) => {
                q = q + l;
            },
            CigarOp::Deletion(_) => {
                t = t + l;
            },
            _ => {
                t = t + l;
                q = q + l;
            },
        }
        i += 1;
    }
    proof {
        assert(c@.take(n as int) =~= c@);
    }
    (t, q)
}

/// Extending a prefix by one op adds that op's consumption.
pub proof fn lemma_span_take_step(c: Seq<CigarOp>, i: int)
    requires
        0 <= i < c.len(),
    ensures
        tspan(c.take(i + 1)) == tspan(c.take(i)) + tconsume(c[i]),
        qspan(c.take(i + 1)) == qspan(c.take(i)) + qconsume(c[i]),
{
    assert(c.take(i + 1).drop_last() =~= c.take(i));
    assert(c.take(i + 1).last() == c[i]);
}

/// A longer prefix never consumes less.
pub proof fn lemma_span_take_le(c: Seq<CigarOp>, i: int, j: int)
    requires
        0 <= i <= j <= c.len(),
    ensures
        tspan(c.take(i)) <= tspan(c.take(j)),
        qspan(c.take(i)) <= qspan(c.take(j)),
    decreases j - i,
{
    if i < j {
        lemma_span_take_le(c, i, j - 1);
        lemma_span_take_step(c, j - 1);
    }
}

/// A prefix never consumes more than the whole trace.
pub proof fn lemma_span_take_full(c: Seq<CigarOp>, i: int)
    requires
        0 <= i <= c.len(),
    ensures
        tspan(c.take(i)) <= tspan(c),
        qspan(c.take(i)) <= qspan(c),
{
    lemma_span_take_le(c, i, c.len() as int);
    assert(c.take(c.len() as int) =~= c);
}

/// Replacing one op changes the totals by the difference in consumption.
pub proof fn lemma_span_update(c: Seq<CigarOp>, j: int, op: CigarOp)
    requires
        0 <= j < c.len(),
    ensures
        tspan(c.update(j, op)) + tconsume(c[j]) == tspan(c) + tconsume(op),
        qspan(c.update(j, op)) + qconsume(c[j]) == qspan(c) + qconsume(op),
    decreases c.len(),
{
    if j == c.len() - 1 {
        assert(c.update(j, op).drop_last() =~= c.drop_last());
        assert(c.update(j, op).last() == op);
    } else {
        assert(c.update(j, op).drop_last() =~= c.drop_last().update(j, op));
        assert(c.update(j, op).last() == c.last());
        assert(c.drop_last()[j] == c[j]);
        lemma_span_update(c.drop_last(), j, op);
    }
}

/// Two distinct ops together never consume more than the whole trace.
pub proof fn lemma_span_two_elems(c: Seq<CigarOp>, i: int, j: int)
    requires
        0 <= i < j < c.len(),
    ensures
        tconsume(c[i]) + tconsume(c[j]) <= tspan(c),
        qconsume(c[i]) + qconsume(c[j]) <= qspan(c),
{
    lemma_span_take_step(c, i);
    lemma_span_take_step(c, j);
    lemma_span_take_le(c, i + 1, j);
    lemma_span_take_full(c, j + 1);
}

} // verus!
