//! The run-length CIGAR operation model: the op variants, their algebra
//! (frame reversal, lengths, re-typed copies), construction from a raw
//! `(length, symbol)` pair, and extended-CIGAR textual rendering.

use vstd::prelude::*;
use vstd::string::StringExecFns;

verus! {

/// One run of an alignment trace: the kind of operation and how many base
/// positions it covers. `Match`/`Mismatch` consume one position of both the
/// target and the query per base; `Deletion` consumes only target positions;
/// `Insertion` consumes only query positions.
#[derive(Debug, Clone, Copy, PartialEq, Eq, Structural)]
pub enum CigarOp {
    Match(u32),
    Mismatch(u32),
    Insertion(u32),
    Deletion(u32),
}

/// Errors of the refinement engine.
#[derive(Debug, Clone, Copy, PartialEq, Eq, Structural)]
pub enum AlignError {
    /// A byte outside {A, C, G, T} was met while complementing a sequence.
    InvalidBase,
    /// An unrecognized op character was met while building a `CigarOp`.
    InvalidCigarSymbol,
    /// An aligner result whose trace or trims do not fit the overlap's
    /// coordinate ranges.
    InconsistentAlignment,
}

/// The run length of an op.
pub open spec fn op_len(op: CigarOp) -> nat {
    match op {
        CigarOp::Match(l) => l as nat,
        CigarOp::Mismatch(l) => l as nat,
        CigarOp::Insertion(l) => l as nat,
        CigarOp::Deletion(l) => l as nat,
    }
}

/// Whether the op consumes both sequences (a match or a mismatch).
pub open spec fn is_mid(op: CigarOp) -> bool {
    match op {
        CigarOp::Match(_) => true,
        CigarOp::Mismatch(_) => true,
        _ => false,
    }
}

/// Whether the op is an indel.
pub open spec fn is_indel(op: CigarOp) -> bool {
    !is_mid(op)
}

/// Whether two ops are of the same variant (lengths aside).
pub open spec fn same_kind(a: CigarOp, b: CigarOp) -> bool {
    match (a, b) {
        (CigarOp::Match(_), CigarOp::Match(_)) => true,
        (CigarOp::Mismatch(_), CigarOp::Mismatch(_)) => true,
        (CigarOp::Insertion(_), CigarOp::Insertion(_)) => true,
        (CigarOp::Deletion(_), CigarOp::Deletion(_)) => true,
        _ => false,
    }
}

/// The same variant as `op`, carrying length `l`.
pub open spec fn with_len_spec(op: CigarOp, l: u32) -> CigarOp {
    match op {
        CigarOp::Match(_) => CigarOp::Match(l),
        CigarOp::Mismatch(_) => CigarOp::Mismatch(l),
        CigarOp::Insertion(_) => CigarOp::Insertion(l),
        CigarOp::Deletion(_) => CigarOp::Deletion(l),
    }
}

/// How many target positions the op consumes: its length for `Match`,
/// `Mismatch` and `Deletion`, none for `Insertion`.
pub open spec fn tconsume(op: CigarOp) -> nat {
    match op {
        CigarOp::Insertion(_) => 0,
        _ => op_len(op),
    }
}

/// How many query positions the op consumes: its length for `Match`,
/// `Mismatch` and `Insertion`, none for `Deletion`.
pub open spec fn qconsume(op: CigarOp) -> nat {
    match op {
        CigarOp::Deletion(_) => 0,
        _ => op_len(op),
    }
}

/// The op re-expressed in the other sequence's frame: insertions and
/// deletions trade places, matches and mismatches stay.
pub open spec fn rev_op(op: CigarOp) -> CigarOp {
    match op {
        CigarOp::Insertion(l) => CigarOp::Deletion(l),
        CigarOp::Deletion(l) => CigarOp::Insertion(l),
        _ => op,
    }
}

/// The character for a decimal digit.
pub open spec fn digit_char(d: nat) -> char {
    if d == 0 {
        '0'
    } else if d == 1 {
        '1'
    } else if d == 2 {
        '2'
    } else if d == 3 {
        '3'
    } else if d == 4 {
        '4'
    } else if d == 5 {
        '5'
    } else if d == 6 {
        '6'
    } else if d == 7 {
        '7'
    } else if d == 8 {
        '8'
    } else {
        '9'
    }
}

/// The decimal rendering of `n`, most significant digit first, no leading
/// zeros (`0` renders as `"0"`).
pub open spec fn dec_str(n: nat) -> Seq<char>
    decreases n,
{
    if n < 10 {
        seq![digit_char(n)]
    } else {
        dec_str(n / 10).push(digit_char(n % 10))
    }
}

/// The extended-CIGAR symbol of the op: `=` exact match, `X` mismatch,
/// `I` insertion, `D` deletion.
pub open spec fn op_symbol(op: CigarOp) -> char {
    match op {
        CigarOp::Match(_) => '=',
        CigarOp::Mismatch(_) => 'X',
        CigarOp::Insertion(_) => 'I',
        CigarOp::Deletion(_) => 'D',
    }
}

/// The text of one op: its run length followed by its symbol.
pub open spec fn op_str(op: CigarOp) -> Seq<char> {
    dec_str(op_len(op)).push(op_symbol(op))
}

/// The text of a full trace: the per-op strings concatenated in order with
/// no separators.
pub open spec fn cigar_str(c: Seq<CigarOp>) -> Seq<char>
    decreases c.len(),
{
    if c.len() == 0 {
        Seq::empty()
    } else {
        cigar_str(c.drop_last()) + op_str(c.last())
    }
}

/// A single decimal digit as a string.
fn digit_string(d: u32) -> (s: String)
    requires
        d < 10,
    ensures
        s@ == seq![digit_char(d as nat)],
{
    match d {
        0 => {
            proof {
                reveal_strlit("0");
            }
            String::from_str("0")
        },
        1 => {
            proof {
                reveal_strlit("1");
            }
            String::from_str("1")
        },
        2 => {
            proof {
                reveal_strlit("2");
            }
            String::from_str("2")
        },
        3 => {
            proof {
                reveal_strlit("3");
            }
            String::from_str("3")
        },
        4 => {
            proof {
                reveal_strlit("4");
            }
            String::from_str("4")
        },
        5 => {
            proof {
                reveal_strlit("5");
            }
            String::from_str("5")
        },
        6 => {
            proof {
                reveal_strlit("6");
            }
            String::from_str("6")
        },
        7 => {
            proof {
                reveal_strlit("7");
            }
            String::from_str("7")
        },
        8 => {
            proof {
                reveal_strlit("8");
            }
            String::from_str("8")
        },
        _ => {
            proof {
                reveal_strlit("9");
            }
            String::from_str("9")
        },
    }
}

/// The decimal rendering of `n`.
fn dec_string(n: u32) -> (s: String)
    ensures
        s@ == dec_str(n as nat),
    decreases n,
{
    if n < 10 {
        digit_string(n)
    } else {
        let mut s = dec_string(n / 10);
        let d = digit_string(n % 10);
        s.append(d.as_str());
        proof {
            assert(s@ =~= dec_str(n as nat));
        }
        s
    }
}

impl CigarOp {
    /// Re-expresses this op in the other sequence's frame: an insertion in
    /// one frame is a deletion in the other, and vice versa.
    pub fn reverse(&self) -> (r: Self)
        ensures
            r == rev_op(*self),
    {
        match self {
            Self::Insertion(l) => Self::Deletion(*l),
            Self::Deletion(l) => Self::Insertion(*l),
            _ => *self,
        }
    }

    /// The run length carried by this op.
    pub fn get_length(&self) -> (r: u32)
        ensures
            r == op_len(*self),
    {
        match self {
            Self::Match(l) => *l,
            Self::Mismatch(l) => *l,
            Self::Insertion(l) => *l,
            Self::Deletion(l) => *l,
        }
    }

    /// A copy of this op's variant carrying a different run length; used when
    /// coalescing adjacent runs of equal kind.
    pub fn with_length(&self, length: u32) -> (r: Self)
        ensures
            r == with_len_spec(*self, length),
    {
        match self {
            Self::Match(_) => CigarOp::Match(length),
            Self::Mismatch(_) => CigarOp::Mismatch(length),
            Self::Insertion(_) => CigarOp::Insertion(length),
            Self::Deletion(_) => CigarOp::Deletion(length),
        }
    }

    /// Builds an op from a raw `(length, symbol)` pair as emitted by an
    /// aligner trace: `M`, `X`, `I`, `D` are accepted; any other symbol is a
    /// malformed upstream trace and yields `InvalidCigarSymbol`.
    pub fn from_pair(length: u32, symbol: char) -> (r: Result<Self, AlignError>)
        ensures
            symbol == 'M' ==> r == Ok::<CigarOp, AlignError>(CigarOp::Match(length)),
            symbol == 'X' ==> r == Ok::<CigarOp, AlignError>(CigarOp::Mismatch(length)),
            symbol == 'I' ==> r == Ok::<CigarOp, AlignError>(CigarOp::Insertion(length)),
            symbol == 'D' ==> r == Ok::<CigarOp, AlignError>(CigarOp::Deletion(length)),
            symbol != 'M' && symbol != 'X' && symbol != 'I' && symbol != 'D' ==> r == Err::<
                CigarOp,
                AlignError,
            >(AlignError::InvalidCigarSymbol),
    {
        match symbol {
            'M' => Ok(CigarOp::Match(length)),
            'X' => Ok(CigarOp::Mismatch(length)),
            'I' => Ok(CigarOp::Insertion(length)),
            'D' => Ok(CigarOp::Deletion(length)),
            _ => Err(AlignError::InvalidCigarSymbol),
        }
    }

    /// The extended-CIGAR text of this op: its length, then `=` for a
    /// match, `X` for a mismatch, `I` for an insertion, `D` for a deletion.
    pub fn to_text(&self) -> (s: String)
        ensures
            s@ == op_str(*self),
    {
        let mut s = dec_string(self.get_length());
        match self {
            CigarOp::Match(_) => {
                proof {
                    reveal_strlit("=");
                }
                s.append("=");
            },
            CigarOp::Mismatch(_) => {
                proof {
                    reveal_strlit("X");
                }
                s.append("X");
            },
            CigarOp::Insertion(_) => {
                proof {
                    reveal_strlit("I");
                }
                s.append("I");
            },
            CigarOp::Deletion(_) => {
                proof {
                    reveal_strlit("D");
                }
                s.append("D");
            },
        }
        proof {
            assert(s@ =~= op_str(*self));
        }
        s
    }
}

/// The extended-CIGAR text of a full trace: per-op strings concatenated in
/// order with no separators.
pub fn cigar_to_string(cigar: &[CigarOp]) -> (s: String)
    ensures
        s@ == cigar_str(cigar@),
{
    let n = cigar.len();
    let mut s = String::new();
    let mut i: usize = 0;
    while i < n
        invariant
            n == cigar@.len(),
            0 <= i <= n,
            s@ == cigar_str(cigar@.take(i as int)),
        decreases n - i,
    {
        let t = cigar[i].to_text();
        s.append(t.as_str());
        proof {
            assert(cigar@.take(i + 1).drop_last() =~= cigar@.take(i as int));
            assert(cigar@.take(i + 1).last() == cigar@[i as int]);
        }
        i += 1;
    }
    proof {
        assert(cigar@.take(n as int) =~= cigar@);
    }
    s
}

} // verus!
