//! Nucleotide sequences: base complementation and reverse complement over
//! the four-symbol alphabet {A, C, G, T}.

use vstd::prelude::*;
use crate::cigar::AlignError;

verus! {

/// Whether the byte is one of the four nucleotide codes.
pub open spec fn valid_base(b: u8) -> bool {
    b == 65 || b == 67 || b == 71 || b == 84
}

/// The pairing base: A maps to T, C maps to G, and conversely.
pub open spec fn comp(b: u8) -> u8 {
    if b == 65 {
        84
    } else if b == 67 {
        71
    } else if b == 71 {
        67
    } else {
        65
    }
}

/// The reverse complement of a sequence: the order reversed, every base
/// replaced by its pairing base.
pub open spec fn rc(s: Seq<u8>) -> Seq<u8> {
    Seq::new(s.len(), |i: int| comp(s[s.len() - 1 - i]))
}

/// Taking the reverse complement twice gives the sequence back, for any
/// sequence over {A, C, G, T}.
pub proof fn lemma_reverse_complement_involution(s: Seq<u8>)
    requires
        forall|i: int| 0 <= i < s.len() ==> valid_base(s[i]),
    ensures
        rc(rc(s)) == s,
{
    assert(rc(rc(s)) =~= s);
}

/// The pairing base of a single nucleotide byte; a byte outside {A, C, G, T}
/// is an invalid-input error.
pub fn complement(base: u8) -> (r: Result<u8, AlignError>)
    ensures
        valid_base(base) ==> r == Ok::<u8, AlignError>(comp(base)),
        !valid_base(base) ==> r == Err::<u8, AlignError>(AlignError::InvalidBase),
{
    match base {
        65 => Ok(84),  // A -> T
        67 => Ok(71),  // C -> G
        71 => Ok(67),  // G -> C
        84 => Ok(65),  // T -> A
        _ => Err(AlignError::InvalidBase),
    }
}

/// The reverse complement of `seq` as an owned buffer: reverse the order,
/// then complement each base. Any byte outside {A, C, G, T} fails with
/// `InvalidBase`.
pub fn reverse_complement(seq: &[u8]) -> (r: Result<Vec<u8>, AlignError>)
    ensures
        match r {
            Ok(v) => (forall|i: int| 0 <= i < seq@.len() ==> valid_base(seq@[i])) && v@ == rc(
                seq@,
            ),
            Err(e) => e == AlignError::InvalidBase && exists|i: int|
                0 <= i < seq@.len() && !valid_base(seq@[i]),
        },
{
    let n = seq.len();
    let mut out: Vec<u8> = Vec::new();
    let mut i: usize = 0;
    while i < n
        invariant
            n == seq@.len(),
            0 <= i <= n,
            out@.len() == i,
            forall|j: int| n - i <= j < n ==> valid_base(#[trigger] seq@[j]),
            forall|j: int| 0 <= j < i ==> out@[j] == comp(seq@[n - 1 - j]),
        decreases n - i,
    {
        let b = seq[n - 1 - i];
        match complement(b) {
            Ok(c) => {
                out.push(c);
            },
            Err(e) => {
                return Err(e);
            },
        }
        i += 1;
    }
    assert(out@ =~= rc(seq@));
    Ok(out)
}

} // verus!
