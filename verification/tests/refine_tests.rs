use haec_align::accuracy::{calculate_accuracy, Accuracy};
use haec_align::cigar::{AlignError, CigarOp};
use haec_align::dna::{complement, reverse_complement};
use haec_align::orient::get_proper_cigar;
use haec_align::overlap::{refine_overlap, AlignmentResult, Overlap, Strand};
use haec_align::span::trace_spans;

#[test]
fn trace_spans_counts_by_kind() {
    let cigar = vec![
        CigarOp::Match(4),
        CigarOp::Mismatch(2),
        CigarOp::Insertion(3),
        CigarOp::Deletion(5),
    ];
    // target walk: matches, mismatches and deletions; query walk: matches,
    // mismatches and insertions
    assert_eq!(trace_spans(&cigar), (11, 9));
}

#[test]
fn complement_pairs_bases() {
    assert_eq!(complement(b'A'), Ok(b'T'));
    assert_eq!(complement(b'C'), Ok(b'G'));
    assert_eq!(complement(b'G'), Ok(b'C'));
    assert_eq!(complement(b'T'), Ok(b'A'));
    assert_eq!(complement(b'N'), Err(AlignError::InvalidBase));
}

#[test]
fn reverse_complement_reverses_and_pairs() {
    assert_eq!(reverse_complement(b"AACGT"), Ok(b"ACGTT".to_vec()));
    assert_eq!(reverse_complement(b""), Ok(Vec::new()));
}

#[test]
fn reverse_complement_rejects_other_bytes() {
    assert_eq!(reverse_complement(b"ACGU"), Err(AlignError::InvalidBase));
}

#[test]
fn reverse_complement_involution() {
    let s = b"GATTACAGATTACACCCGGGT".to_vec();
    let once = reverse_complement(&s).unwrap();
    let twice = reverse_complement(&once).unwrap();
    assert_eq!(twice, s);
}

#[test]
fn proper_cigar_target_frame_is_a_copy() {
    let cigar = vec![CigarOp::Match(4), CigarOp::Insertion(2), CigarOp::Deletion(1)];
    assert_eq!(get_proper_cigar(&cigar, true, Strand::Forward), cigar);
    assert_eq!(get_proper_cigar(&cigar, true, Strand::Reverse), cigar);
}

#[test]
fn proper_cigar_query_frame_swaps_indels() {
    let cigar = vec![CigarOp::Match(4), CigarOp::Insertion(2), CigarOp::Deletion(1)];
    assert_eq!(
        get_proper_cigar(&cigar, false, Strand::Forward),
        vec![CigarOp::Match(4), CigarOp::Deletion(2), CigarOp::Insertion(1)]
    );
    assert_eq!(
        get_proper_cigar(&cigar, false, Strand::Reverse),
        vec![CigarOp::Insertion(1), CigarOp::Deletion(2), CigarOp::Match(4)]
    );
}

#[test]
fn proper_cigar_query_round_trip() {
    let cigar = vec![
        CigarOp::Mismatch(3),
        CigarOp::Insertion(2),
        CigarOp::Match(7),
        CigarOp::Deletion(5),
    ];
    for strand in [Strand::Forward, Strand::Reverse] {
        let there = get_proper_cigar(&cigar, false, strand);
        let back = get_proper_cigar(&there, false, strand);
        assert_eq!(back, cigar);
    }
}

#[test]
fn accuracy_of_the_mixed_trace() {
    let cigar = vec![
        CigarOp::Match(90),
        CigarOp::Mismatch(5),
        CigarOp::Insertion(3),
        CigarOp::Deletion(2),
    ];
    let acc = calculate_accuracy(&cigar).unwrap();
    assert_eq!(acc, Accuracy { matches: 90, total: 100 });
    assert_eq!(acc.matches as f32 / acc.total as f32, 0.9);
}

#[test]
fn accuracy_of_a_degenerate_trace_is_flagged() {
    let empty: Vec<CigarOp> = vec![];
    assert_eq!(calculate_accuracy(&empty), None);
    let zeros = vec![CigarOp::Match(0), CigarOp::Deletion(0)];
    assert_eq!(calculate_accuracy(&zeros), None);
}

#[test]
fn refine_forward_overlap_applies_trims() {
    let mut o = Overlap::new(0, 10, 20, Strand::Forward, 1, 100, 115);
    let res = AlignmentResult::new(
        vec![CigarOp::Match(6), CigarOp::Deletion(4)],
        2,
        3,
        3,
        1,
    );
    refine_overlap(&mut o, res, 200, 50).unwrap();
    assert_eq!((o.tstart, o.tend), (102, 112));
    assert_eq!((o.qstart, o.qend), (13, 19));
    assert_eq!(
        o.cigar,
        Some(vec![CigarOp::Match(6), CigarOp::Deletion(4)])
    );
    assert_eq!(o.accuracy, Some(Accuracy { matches: 6, total: 10 }));
}

#[test]
fn refine_reverse_overlap_swaps_query_trims() {
    let mut o = Overlap::new(0, 10, 20, Strand::Reverse, 1, 100, 115);
    let res = AlignmentResult::new(
        vec![CigarOp::Match(6), CigarOp::Deletion(4)],
        2,
        3,
        3,
        1,
    );
    refine_overlap(&mut o, res, 200, 50).unwrap();
    assert_eq!((o.tstart, o.tend), (102, 112));
    assert_eq!((o.qstart, o.qend), (11, 17));
    assert_eq!(o.accuracy, Some(Accuracy { matches: 6, total: 10 }));
}

#[test]
fn refine_checks_trace_against_coordinates() {
    // the trace walks 10 target bases but the trimmed range holds 11
    let mut o = Overlap::new(0, 10, 20, Strand::Forward, 1, 100, 116);
    let res = AlignmentResult::new(
        vec![CigarOp::Match(6), CigarOp::Deletion(4)],
        2,
        3,
        3,
        1,
    );
    let r = refine_overlap(&mut o, res, 200, 50);
    assert_eq!(r, Err(AlignError::InconsistentAlignment));
    assert_eq!((o.tstart, o.tend), (100, 116));
    assert_eq!((o.qstart, o.qend), (10, 20));
    assert!(o.cigar.is_none());
    assert!(o.accuracy.is_none());
}

#[test]
fn refine_rejects_oversized_trims() {
    let mut o = Overlap::new(0, 10, 20, Strand::Forward, 1, 100, 115);
    let res = AlignmentResult::new(vec![], 10, 6, 0, 0);
    let r = refine_overlap(&mut o, res, 200, 50);
    assert_eq!(r, Err(AlignError::InconsistentAlignment));
    assert_eq!((o.tstart, o.tend), (100, 115));
}
