//! The indel left-alignment normalizer. When an indel sits in a run of
//! repeated bases, several placements describe the same alignment; this pass
//! shifts every interior indel to the leftmost equivalent position, strips a
//! degenerate leading run, drops zero-length runs and coalesces adjacent
//! runs of equal kind, so that traces become deterministic and comparable.

use vstd::prelude::*;
use crate::cigar::{CigarOp, is_mid, is_indel, op_len, same_kind, with_len_spec, tconsume, qconsume};
use crate::span::{
    tspan, qspan, lemma_span_take_step, lemma_span_take_full, lemma_span_update,
    lemma_span_two_elems,
};

verus! {

/// A finalized trace: every run has a positive length and no two adjacent
/// runs share the same kind.
pub open spec fn normalized(c: Seq<CigarOp>) -> bool {
    &&& forall|i: int| 0 <= i < c.len() ==> op_len(#[trigger] c[i]) > 0
    &&& forall|i: int| 1 <= i < c.len() ==> !(#[trigger] same_kind(c[i - 1], c[i]))
}

/// A trace that left-alignment can do nothing more to, against these
/// sequences: it is normalized, opens with a match/mismatch run, never puts
/// two indels side by side, and every interior indel already sits at its
/// leftmost equivalent position (the bases the shift test would compare
/// first differ). `fix_cigar` returns such traces unchanged, which is the
/// idempotence of normalization: its own output is canonical whenever,
/// additionally, no degenerate leading run and no indel-indel contact arose
/// and no shift was cut short by its preceding run's length (a truncated
/// shift can continue once runs have been coalesced).
pub open spec fn canonical(c: Seq<CigarOp>, t: Seq<u8>, q: Seq<u8>) -> bool {
    &&& normalized(c)
    &&& c.len() > 0 ==> is_mid(c[0])
    &&& forall|i: int| 0 <= i < c.len() - 1 && is_indel(#[trigger] c[i]) ==> is_mid(c[i + 1])
    &&& forall|i: int|
        0 < i < c.len() - 1 && (#[trigger] c[i]) is Insertion ==> q[qspan(c.take(i)) - 1] != q[
            qspan(c.take(i)) + op_len(c[i]) - 1
        ]
    &&& forall|i: int|
        0 < i < c.len() - 1 && (#[trigger] c[i]) is Deletion ==> t[tspan(c.take(i)) - 1] != t[
            tspan(c.take(i)) + op_len(c[i]) - 1
        ]
}

/// How far an indel of length `len`, whose start sits at offset `pos` of
/// its own sequence `s`, can shift left within its repeat window: the count
/// of consecutive offsets `k` (bounded by the preceding run's length) with
/// `s[pos - 1 - k] == s[pos + len - 1 - k]`.
pub open spec fn max_shift(s: Seq<u8>, pos: int, len: int, bound: nat) -> nat
    decreases bound,
{
    if bound == 0 {
        0
    } else if s[pos - 1] == s[pos + len - 1] {
        1 + max_shift(s, pos - 1, len, (bound - 1) as nat)
    } else {
        0
    }
}

/// The left-to-right shift pass from position `i` with consumed-position
/// counters `tpos` and `qpos`: each indel strictly between two
/// match/mismatch runs moves left by its maximal shift, taking length from
/// the preceding run and giving it to the following one.
pub open spec fn shift_pass(
    c: Seq<CigarOp>,
    t: Seq<u8>,
    q: Seq<u8>,
    i: int,
    tpos: int,
    qpos: int,
) -> Seq<CigarOp>
    decreases c.len() - i,
{
    if i < 0 || i >= c.len() {
        c
    } else {
        let op = c[i];
        if is_mid(op) {
            shift_pass(c, t, q, i + 1, tpos + op_len(op), qpos + op_len(op))
        } else if 0 < i && i + 1 < c.len() && is_mid(c[i - 1]) && is_mid(c[i + 1]) {
            let prev_len = op_len(c[i - 1]);
            let len = op_len(op);
            let l = if op is Insertion {
                max_shift(q, qpos, len as int, prev_len)
            } else {
                max_shift(t, tpos, len as int, prev_len)
            };
            let c2 = if l > 0 {
                c.update(i - 1, with_len_spec(c[i - 1], (prev_len - l) as u32)).update(
                    i + 1,
                    with_len_spec(c[i + 1], (op_len(c[i + 1]) + l) as u32),
                )
            } else {
                c
            };
            if op is Insertion {
                shift_pass(c2, t, q, i + 1, tpos - l, qpos - l + len)
            } else {
                shift_pass(c2, t, q, i + 1, tpos - l + len, qpos - l)
            }
        } else {
            shift_pass(c, t, q, i + 1, tpos, qpos)
        }
    }
}

/// The stripping pass from position `i`: before the first retained op
/// (`started` false), zero-length match/mismatch runs disappear and a
/// leading indel is removed with its length recorded as the corresponding
/// shift; afterwards every positive-length op is kept and zero-length ops
/// are dropped.
pub open spec fn strip_pass(
    c: Seq<CigarOp>,
    i: int,
    started: bool,
    kept: Seq<CigarOp>,
    tsh: nat,
    qsh: nat,
) -> (Seq<CigarOp>, nat, nat)
    decreases c.len() - i,
{
    if i < 0 || i >= c.len() {
        (kept, tsh, qsh)
    } else {
        let op = c[i];
        if !started {
            if is_mid(op) {
                if op_len(op) > 0 {
                    strip_pass(c, i + 1, true, kept.push(op), tsh, qsh)
                } else {
                    strip_pass(c, i + 1, false, kept, tsh, qsh)
                }
            } else if op is Insertion {
                strip_pass(c, i + 1, true, kept, tsh, op_len(op))
            } else {
                strip_pass(c, i + 1, true, kept, op_len(op), qsh)
            }
        } else {
            if op_len(op) > 0 {
                strip_pass(c, i + 1, true, kept.push(op), tsh, qsh)
            } else {
                strip_pass(c, i + 1, true, kept, tsh, qsh)
            }
        }
    }
}

/// The run-length compaction pass from position `i`: an op of the same kind
/// as the last accumulated run melts into it, any other op starts a new
/// run.
pub open spec fn coalesce_pass(c: Seq<CigarOp>, i: int, acc: Seq<CigarOp>) -> Seq<CigarOp>
    decreases c.len() - i,
{
    if i < 0 || i >= c.len() {
        acc
    } else {
        let op = c[i];
        if acc.len() > 0 && same_kind(acc.last(), op) {
            coalesce_pass(
                c,
                i + 1,
                acc.update(
                    acc.len() - 1,
                    with_len_spec(acc.last(), (op_len(acc.last()) + op_len(op)) as u32),
                ),
            )
        } else {
            coalesce_pass(c, i + 1, acc.push(op))
        }
    }
}

/// What `fix_cigar` returns: the shift pass, then the stripping pass, then
/// run-length compaction, with the recorded target and query start shifts.
pub open spec fn fix_spec(c: Seq<CigarOp>, t: Seq<u8>, q: Seq<u8>) -> (Seq<CigarOp>, nat, nat) {
    let shifted = shift_pass(c, t, q, 0, 0, 0);
    let stripped = strip_pass(shifted, 0, false, Seq::empty(), 0, 0);
    (coalesce_pass(stripped.0, 0, Seq::empty()), stripped.1, stripped.2)
}

/// Whether the op consumes both sequences (a match or a mismatch).
fn is_matchish(op: &CigarOp) -> (r: bool)
    ensures
        r == is_mid(*op),
{
    match op {
        CigarOp::Match(_) => true,
        CigarOp::Mismatch(_) => true,
        _ => false,
    }
}

/// Whether two ops are of the same variant.
fn same_kind_exec(a: &CigarOp, b: &CigarOp) -> (r: bool)
    ensures
        r == same_kind(*a, *b),
{
    match (*a, *b) {
        (CigarOp::Match(_), CigarOp::Match(_)) => true,
        (CigarOp::Mismatch(_), CigarOp::Mismatch(_)) => true,
        (CigarOp::Insertion(_), CigarOp::Insertion(_)) => true,
        (CigarOp::Deletion(_), CigarOp::Deletion(_)) => true,
        _ => false,
    }
}

/// Canonicalizes indel placement in `cigar` against the aligned `target` and
/// `query` sub-sequences, in a single left-to-right pass:
///
/// * every indel strictly between two match/mismatch runs is shifted left by
///   the longest repeat-compatible amount, moving length from the preceding
///   run to the following one;
/// * a degenerate leading run is stripped: a zero-length match/mismatch
///   disappears, a leading indel is removed and its length returned as a
///   start-coordinate shift on the corresponding sequence;
/// * remaining zero-length runs are dropped and adjacent runs of equal kind
///   are coalesced.
///
/// Returns `(target_shift, query_shift)`; the caller must add these to the
/// alignment's start coordinate on the target and query respectively. The
/// result is exactly `fix_spec` of the inputs; in particular it is
/// normalized, and the positions the trace consumes on each sequence shrink
/// by exactly the returned shifts.
pub fn fix_cigar(cigar: &mut Vec<CigarOp>, target: &[u8], query: &[u8]) -> (shifts: (u32, u32))
    requires
        tspan(old(cigar)@) <= target@.len() <= 0xffff_ffff,
        qspan(old(cigar)@) <= query@.len() <= 0xffff_ffff,
    ensures
        final(cigar)@ == fix_spec(old(cigar)@, target@, query@).0,
        shifts.0 as nat == fix_spec(old(cigar)@, target@, query@).1,
        shifts.1 as nat == fix_spec(old(cigar)@, target@, query@).2,
        normalized(final(cigar)@),
        tspan(final(cigar)@) + shifts.0 == tspan(old(cigar)@),
        qspan(final(cigar)@) + shifts.1 == qspan(old(cigar)@),
        shifts.0 == 0 || shifts.1 == 0,
        final(cigar)@.len() <= old(cigar)@.len(),
        canonical(old(cigar)@, target@, query@) ==> final(cigar)@ == old(cigar)@ && shifts.0 == 0
            && shifts.1 == 0,
{
    let ghost c0 = cigar@;
    let ghost canon = canonical(cigar@, target@, query@);
    let n = cigar.len();
    let tcap = target.len();
    let qcap = query.len();

    // Pass 1: shift interior indels left within their repeat window.
    let mut tpos: usize = 0;
    let mut qpos: usize = 0;
    let mut i: usize = 0;
    while i < n
        invariant
            n == cigar@.len(),
            tcap == target@.len(),
            qcap == query@.len(),
            0 <= i <= n,
            tspan(cigar@) == tspan(c0) <= tcap <= 0xffff_ffff,
            qspan(cigar@) == qspan(c0) <= qcap <= 0xffff_ffff,
            tpos <= tspan(cigar@.take(i as int)),
            qpos <= qspan(cigar@.take(i as int)),
            i > 0 && is_mid(cigar@[i - 1]) ==> tpos >= op_len(cigar@[i - 1]) && qpos >= op_len(
                cigar@[i - 1],
            ),
            canon == canonical(c0, target@, query@),
            canon ==> cigar@ == c0,
            canon && i < n ==> tpos == tspan(c0.take(i as int)) && qpos == qspan(
                c0.take(i as int),
            ),
            shift_pass(c0, target@, query@, 0, 0, 0) == shift_pass(
                cigar@,
                target@,
                query@,
                i as int,
                tpos as int,
                qpos as int,
            ),
        decreases n - i,
    {
        let ghost cb = cigar@;
        let ghost tb = tpos as int;
        let ghost qb = qpos as int;
        proof {
            lemma_span_take_step(cigar@, i as int);
            lemma_span_take_full(cigar@, i as int + 1);
        }
        let op = cigar[i];
        match op {
            CigarOp::Match(l) | CigarOp::Mismatch(l) => {
                tpos = tpos + l as usize;
                qpos = qpos + l as usize;
                proof {
                    assert(shift_pass(cb, target@, query@, i as int, tb, qb) == shift_pass(
                        cigar@,
                        target@,
                        query@,
                        i as int + 1,
                        tpos as int,
                        qpos as int,
                    ));
                }
            },
            CigarOp::Insertion(len) => {
                if i > 0 && i + 1 < n && is_matchish(&cigar[i - 1]) && is_matchish(
                    &cigar[i + 1],
                ) {
                    let prev_len = cigar[i - 1].get_length() as usize;
                    let lenu = len as usize;
                    proof {
                        if canon {
                            // a canonical interior insertion fails the very
                            // first shift comparison
                            assert(c0[i as int] is Insertion);
                            assert(query@[qpos - 1] != query@[qpos + lenu - 1]);
                        }
                    }
                    // qpos + lenu <= qspan(take(i + 1)) <= qspan(cigar) <= qcap
                    let mut l: usize = 0;
                    while l < prev_len
                        invariant
                            l <= prev_len,
                            prev_len <= qpos,
                            qpos + lenu <= qcap == query@.len(),
                            canon ==> l == 0 && query@[qpos - 1] != query@[qpos + lenu - 1],
                            max_shift(query@, qpos as int, lenu as int, prev_len as nat) == l
                                + max_shift(
                                query@,
                                qpos - l,
                                lenu as int,
                                (prev_len - l) as nat,
                            ),
                        ensures
                            l <= prev_len,
                            canon ==> l == 0,
                            l == max_shift(query@, qpos as int, lenu as int, prev_len as nat),
                        decreases prev_len - l,
                    {
                        if query[qpos - 1 - l] != query[qpos + lenu - 1 - l] {
                            proof {
                                assert(max_shift(
                                    query@,
                                    qpos - l,
                                    lenu as int,
                                    (prev_len - l) as nat,
                                ) == 0);
                            }
                            break ;
                        }
                        proof {
                            if canon {
                                assert(false);
                            }
                            assert(max_shift(
                                query@,
                                qpos - l,
                                lenu as int,
                                (prev_len - l) as nat,
                            ) == 1 + max_shift(
                                query@,
                                qpos - l - 1,
                                lenu as int,
                                (prev_len - l - 1) as nat,
                            ));
                        }
                        l += 1;
                    }
                    if l > 0 {
                        let ghost cpre = cigar@;
                        proof {
                            lemma_span_two_elems(cigar@, i - 1, i + 1);
                        }
                        let pl = cigar[i - 1].get_length();
                        let nl = cigar[i + 1].get_length();
                        let shrunk = cigar[i - 1].with_length(pl - l as u32);
                        cigar.set(i - 1, shrunk);
                        let ghost cmid = cigar@;
                        let grown = cigar[i + 1].with_length(nl + l as u32);
                        cigar.set(i + 1, grown);
                        proof {
                            lemma_span_update(cpre, i - 1, shrunk);
                            lemma_span_update(cmid, i + 1, grown);
                            assert(cmid.take(i as int) =~= cpre.take(i as int).update(
                                i - 1,
                                shrunk,
                            ));
                            assert(cigar@.take(i as int) =~= cmid.take(i as int));
                            lemma_span_update(cpre.take(i as int), i - 1, shrunk);
                            assert(cpre.take(i as int)[i - 1] == cpre[i - 1]);
                        }
                        tpos = tpos - l;
                        qpos = qpos - l;
                        proof {
                            assert(cigar@[i as int] == cpre[i as int]);
                            assert(cigar@[i - 1] == shrunk);
                            lemma_span_take_step(cigar@, i as int);
                            assert(cigar@ =~= cpre.update(
                                i - 1,
                                with_len_spec(cpre[i - 1], (op_len(cpre[i - 1]) - l) as u32),
                            ).update(
                                i + 1,
                                with_len_spec(cpre[i + 1], (op_len(cpre[i + 1]) + l) as u32),
                            ));
                        }
                    }
                    qpos = qpos + lenu;
                    proof {
                        lemma_span_take_step(cigar@, i as int);
                        assert(shift_pass(cb, target@, query@, i as int, tb, qb) == shift_pass(
                            cigar@,
                            target@,
                            query@,
                            i as int + 1,
                            tpos as int,
                            qpos as int,
                        ));
                    }
                }
                proof {
                    if canon && i + 1 < n {
                        // a canonical trace opens with a match/mismatch and
                        // never puts two indels side by side, so a
                        // non-trailing insertion is always interior
                        assert(is_mid(c0[0]));
                        assert(c0[i as int] is Insertion);
                        assert(i > 0);
                        if is_indel(c0[i - 1]) {
                            assert(is_mid(c0[i as int]));
                            assert(false);
                        }
                        assert(is_mid(c0[i - 1]));
                        assert(is_indel(c0[i as int]));
                        assert(is_mid(c0[i + 1]));
                    }
                    assert(shift_pass(cb, target@, query@, i as int, tb, qb) == shift_pass(
                        cigar@,
                        target@,
                        query@,
                        i as int + 1,
                        tpos as int,
                        qpos as int,
                    ));
                }
            },
            CigarOp::Deletion(len) => {
                if i > 0 && i + 1 < n && is_matchish(&cigar[i - 1]) && is_matchish(
                    &cigar[i + 1],
                ) {
                    let prev_len = cigar[i - 1].get_length() as usize;
                    let lenu = len as usize;
                    proof {
                        if canon {
                            // a canonical interior deletion fails the very
                            // first shift comparison
                            assert(c0[i as int] is Deletion);
                            assert(target@[tpos - 1] != target@[tpos + lenu - 1]);
                        }
                    }
                    let mut l: usize = 0;
                    while l < prev_len
                        invariant
                            l <= prev_len,
                            prev_len <= tpos,
                            tpos + lenu <= tcap == target@.len(),
                            canon ==> l == 0 && target@[tpos - 1] != target@[tpos + lenu - 1],
                            max_shift(target@, tpos as int, lenu as int, prev_len as nat) == l
                                + max_shift(
                                target@,
                                tpos - l,
                                lenu as int,
                                (prev_len - l) as nat,
                            ),
                        ensures
                            l <= prev_len,
                            canon ==> l == 0,
                            l == max_shift(target@, tpos as int, lenu as int, prev_len as nat),
                        decreases prev_len - l,
                    {
                        if target[tpos - 1 - l] != target[tpos + lenu - 1 - l] {
                            proof {
                                assert(max_shift(
                                    target@,
                                    tpos - l,
                                    lenu as int,
                                    (prev_len - l) as nat,
                                ) == 0);
                            }
                            break ;
                        }
                        proof {
                            if canon {
                                assert(false);
                            }
                            assert(max_shift(
                                target@,
                                tpos - l,
                                lenu as int,
                                (prev_len - l) as nat,
                            ) == 1 + max_shift(
                                target@,
                                tpos - l - 1,
                                lenu as int,
                                (prev_len - l - 1) as nat,
                            ));
                        }
                        l += 1;
                    }
                    if l > 0 {
                        let ghost cpre = cigar@;
                        proof {
                            lemma_span_two_elems(cigar@, i - 1, i + 1);
                        }
                        let pl = cigar[i - 1].get_length();
                        let nl = cigar[i + 1].get_length();
                        let shrunk = cigar[i - 1].with_length(pl - l as u32);
                        cigar.set(i - 1, shrunk);
                        let ghost cmid = cigar@;
                        let grown = cigar[i + 1].with_length(nl + l as u32);
                        cigar.set(i + 1, grown);
                        proof {
                            lemma_span_update(cpre, i - 1, shrunk);
                            lemma_span_update(cmid, i + 1, grown);
                            assert(cmid.take(i as int) =~= cpre.take(i as int).update(
                                i - 1,
                                shrunk,
                            ));
                            assert(cigar@.take(i as int) =~= cmid.take(i as int));
                            lemma_span_update(cpre.take(i as int), i - 1, shrunk);
                            assert(cpre.take(i as int)[i - 1] == cpre[i - 1]);
                        }
                        tpos = tpos - l;
                        qpos = qpos - l;
                        proof {
                            assert(cigar@[i as int] == cpre[i as int]);
                            assert(cigar@[i - 1] == shrunk);
                            lemma_span_take_step(cigar@, i as int);
                            assert(cigar@ =~= cpre.update(
                                i - 1,
                                with_len_spec(cpre[i - 1], (op_len(cpre[i - 1]) - l) as u32),
                            ).update(
                                i + 1,
                                with_len_spec(cpre[i + 1], (op_len(cpre[i + 1]) + l) as u32),
                            ));
                        }
                    }
                    tpos = tpos + lenu;
                    proof {
                        lemma_span_take_step(cigar@, i as int);
                        assert(shift_pass(cb, target@, query@, i as int, tb, qb) == shift_pass(
                            cigar@,
                            target@,
                            query@,
                            i as int + 1,
                            tpos as int,
                            qpos as int,
                        ));
                    }
                }
                proof {
                    if canon && i + 1 < n {
                        // as for insertions: a non-trailing deletion of a
                        // canonical trace is always interior
                        assert(is_mid(c0[0]));
                        assert(c0[i as int] is Deletion);
                        assert(i > 0);
                        if is_indel(c0[i - 1]) {
                            assert(is_mid(c0[i as int]));
                            assert(false);
                        }
                        assert(is_mid(c0[i - 1]));
                        assert(is_indel(c0[i as int]));
                        assert(is_mid(c0[i + 1]));
                    }
                    assert(shift_pass(cb, target@, query@, i as int, tb, qb) == shift_pass(
                        cigar@,
                        target@,
                        query@,
                        i as int + 1,
                        tpos as int,
                        qpos as int,
                    ));
                }
            },
        }
        i += 1;
    }

    // Pass 2: strip a degenerate leading run, drop zero-length runs.
    let ghost c1 = cigar@;
    proof {
        assert(c1.take(n as int) =~= c1);
        assert(shift_pass(c1, target@, query@, n as int, tpos as int, qpos as int) == c1);
        assert(shift_pass(c0, target@, query@, 0, 0, 0) == c1);
    }
    let mut kept: Vec<CigarOp> = Vec::new();
    let mut tshift: u32 = 0;
    let mut qshift: u32 = 0;
    let mut is_start = true;
    let mut j: usize = 0;
    while j < n
        invariant
            n == c1.len(),
            cigar@ == c1,
            0 <= j <= n,
            forall|k: int| 0 <= k < kept@.len() ==> op_len(#[trigger] kept@[k]) > 0,
            tspan(kept@) + tshift == tspan(c1.take(j as int)),
            qspan(kept@) + qshift == qspan(c1.take(j as int)),
            tshift == 0 || qshift == 0,
            kept@.len() <= j,
            is_start ==> kept@.len() == 0 && tshift == 0 && qshift == 0,
            canon == canonical(c0, target@, query@),
            canon ==> c1 == c0 && kept@ == c1.take(j as int) && tshift == 0 && qshift == 0 && (
            is_start <==> j == 0),
            strip_pass(c1, 0, false, Seq::<CigarOp>::empty(), 0, 0) == strip_pass(
                c1,
                j as int,
                !is_start,
                kept@,
                tshift as nat,
                qshift as nat,
            ),
        decreases n - j,
    {
        let ghost kb = kept@;
        let ghost sb = !is_start;
        let ghost tshb = tshift as nat;
        let ghost qshb = qshift as nat;
        proof {
            lemma_span_take_step(c1, j as int);
            if canon {
                // a canonical trace keeps every op: all runs are positive
                // and the first is a match/mismatch
                assert(op_len(c1[j as int]) > 0);
                assert(c1.len() > 0 ==> is_mid(c1[0]));
            }
        }
        let op = cigar[j];
        let ghost kpre = kept@;
        if is_start {
            match op {
                CigarOp::Match(l) | CigarOp::Mismatch(l) => {
                    if l > 0 {
                        is_start = false;
                        kept.push(op);
                        proof {
                            assert(kept@.drop_last() =~= kpre);
                            if canon {
                                assert(kept@ =~= c1.take(j + 1));
                            }
                        }
                    }
                },
                CigarOp::Insertion(l) => {
                    is_start = false;
                    qshift = l;
                },
                CigarOp::Deletion(l) => {
                    is_start = false;
                    tshift = l;
                },
            }
        } else {
            if op.get_length() > 0 {
                kept.push(op);
                proof {
                    assert(kept@.drop_last() =~= kpre);
                    if canon {
                        assert(kept@ =~= c1.take(j + 1));
                    }
                }
            }
        }
        proof {
            assert(strip_pass(c1, j as int, sb, kb, tshb, qshb) == strip_pass(
                c1,
                j as int + 1,
                !is_start,
                kept@,
                tshift as nat,
                qshift as nat,
            ));
        }
        j += 1;
    }

    proof {
        assert(strip_pass(c1, n as int, !is_start, kept@, tshift as nat, qshift as nat) == (
            kept@,
            tshift as nat,
            qshift as nat,
        ));
        assert(strip_pass(c1, 0, false, Seq::<CigarOp>::empty(), 0, 0) == (
            kept@,
            tshift as nat,
            qshift as nat,
        ));
    }

    // Pass 3: coalesce adjacent runs of equal kind.
    let ghost ck = kept@;
    let m = kept.len();
    let mut out: Vec<CigarOp> = Vec::new();
    let mut k: usize = 0;
    while k < m
        invariant
            m == ck.len(),
            kept@ == ck,
            0 <= k <= m,
            forall|x: int| 0 <= x < m ==> op_len(#[trigger] ck[x]) > 0,
            normalized(out@),
            tspan(out@) == tspan(ck.take(k as int)),
            qspan(out@) == qspan(ck.take(k as int)),
            tspan(ck) <= 0xffff_ffff,
            qspan(ck) <= 0xffff_ffff,
            out@.len() <= k,
            (out@.len() > 0) <==> (k > 0),
            k > 0 ==> same_kind(out@.last(), ck[k - 1]),
            canon == canonical(c0, target@, query@),
            canon ==> ck == c0 && out@ == ck.take(k as int),
            coalesce_pass(ck, 0, Seq::<CigarOp>::empty()) == coalesce_pass(ck, k as int, out@),
        decreases m - k,
    {
        proof {
            lemma_span_take_step(ck, k as int);
            lemma_span_take_full(ck, k as int + 1);
        }
        let op = kept[k];
        let ghost opre = out@;
        if out.len() > 0 && same_kind_exec(&out[out.len() - 1], &op) {
            let last = out[out.len() - 1];
            proof {
                if canon {
                    // adjacent runs of a canonical trace differ in kind, so
                    // nothing is ever merged
                    assert(out@.last() == ck[k - 1]);
                    assert(!same_kind(ck[k - 1], ck[k as int]));
                    assert(false);
                }
                // the merged run still fits in a u32: the two runs consume
                // the same sequence, and together no more than the whole
                // trace does
                assert(tspan(opre) + tconsume(ck[k as int]) <= tspan(ck));
                assert(qspan(opre) + qconsume(ck[k as int]) <= qspan(ck));
                assert(tconsume(opre.last()) <= tspan(opre));
                assert(qconsume(opre.last()) <= qspan(opre));
            }
            let merged = last.with_length(last.get_length() + op.get_length());
            let li = out.len() - 1;
            out.set(li, merged);
            proof {
                assert(last == opre.last());
                assert(merged == with_len_spec(
                    opre.last(),
                    (op_len(opre.last()) + op_len(ck[k as int])) as u32,
                ));
                lemma_span_update(opre, li as int, merged);
                assert(forall|x: int|
                    0 <= x < out@.len() - 1 ==> #[trigger] out@[x] == opre[x]);
                assert(out@.last() == merged);
                assert(same_kind(merged, opre[li as int]));
                assert forall|x: int| 0 <= x < out@.len() implies op_len(
                    #[trigger] out@[x],
                ) > 0 by {
                    if x < li {
                        assert(out@[x] == opre[x]);
                    } else {
                        assert(out@[x] == merged);
                    }
                }
                assert forall|x: int| 1 <= x < out@.len() implies !(#[trigger] same_kind(
                    out@[x - 1],
                    out@[x],
                )) by {
                    assert(out@[x - 1] == opre[x - 1]);
                    if x < li {
                        assert(out@[x] == opre[x]);
                        assert(!same_kind(opre[x - 1], opre[x]));
                    } else {
                        assert(out@[x] == merged);
                        assert(!same_kind(opre[x - 1], opre[x]));
                    }
                }
            }
        } else {
            out.push(op);
            proof {
                if canon {
                    assert(out@ =~= ck.take(k + 1));
                }
                assert(out@.drop_last() =~= opre);
                assert(forall|x: int| 0 <= x < opre.len() ==> #[trigger] out@[x] == opre[x]);
                assert(same_kind(op, op));
                assert(out@.last() == op);
                assert forall|x: int| 1 <= x < out@.len() implies !(#[trigger] same_kind(
                    out@[x - 1],
                    out@[x],
                )) by {
                    assert(out@[x - 1] == opre[x - 1]);
                    if x < opre.len() {
                        assert(out@[x] == opre[x]);
                        assert(!same_kind(opre[x - 1], opre[x]));
                    } else {
                        assert(out@[x] == op);
                        assert(opre[x - 1] == opre.last());
                    }
                }
            }
        }
        proof {
            assert(coalesce_pass(ck, k as int, opre) == coalesce_pass(ck, k as int + 1, out@));
        }
        k += 1;
    }
    proof {
        assert(ck.take(m as int) =~= ck);
        assert(coalesce_pass(ck, m as int, out@) == out@);
        assert(coalesce_pass(ck, 0, Seq::<CigarOp>::empty()) == out@);
        assert(fix_spec(c0, target@, query@) == (out@, tshift as nat, qshift as nat));
    }
    *cigar = out;
    (tshift, qshift)
}

} // verus!
