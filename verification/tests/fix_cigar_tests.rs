use haec_align::cigar::CigarOp;
use haec_align::normalize::fix_cigar;

#[test]
fn fix_cigar_test1() {
    let target = "TTTTGTTTTTTTTTTCTTTTTTTTTTTTTTTTTTTGCT".as_bytes();
    let query = "TTTTGTTTTTTTTTTCTTTTTTTTTTTTTTTGCT".as_bytes();
    let mut cigar = vec![CigarOp::Match(31), CigarOp::Deletion(4), CigarOp::Match(3)];

    fix_cigar(&mut cigar, target, query);
    assert_eq!(
        cigar,
        [CigarOp::Match(16), CigarOp::Deletion(4), CigarOp::Match(18)]
    )
}

#[test]
fn fix_cigar_test2() {
    let target = "AGCAAAAAAAAAAAAAAAGAAAAAAAAAACAAAA".as_bytes();
    let query = "AGCAAAAAAAAAAAAAAAAAAAGAAAAAAAAAACAAAA".as_bytes();
    let mut cigar = vec![
        CigarOp::Match(18),
        CigarOp::Insertion(4),
        CigarOp::Match(16),
    ];

    fix_cigar(&mut cigar, target, query);
    assert_eq!(
        cigar,
        [CigarOp::Match(3), CigarOp::Insertion(4), CigarOp::Match(31)]
    )
}

#[test]
fn fix_cigar_test3() {
    let target = "CACCAGGCCA".as_bytes();
    let query = "CACCAGCCA".as_bytes();
    let mut cigar = vec![CigarOp::Match(6), CigarOp::Deletion(1), CigarOp::Match(3)];

    fix_cigar(&mut cigar, target, query);
    assert_eq!(
        cigar,
        [CigarOp::Match(5), CigarOp::Deletion(1), CigarOp::Match(4)]
    )
}

#[test]
fn fix_cigar_idempotent_on_examples() {
    let cases: Vec<(&[u8], &[u8], Vec<CigarOp>)> = vec![
        (
            "TTTTGTTTTTTTTTTCTTTTTTTTTTTTTTTTTTTGCT".as_bytes(),
            "TTTTGTTTTTTTTTTCTTTTTTTTTTTTTTTGCT".as_bytes(),
            vec![CigarOp::Match(31), CigarOp::Deletion(4), CigarOp::Match(3)],
        ),
        (
            "AGCAAAAAAAAAAAAAAAGAAAAAAAAAACAAAA".as_bytes(),
            "AGCAAAAAAAAAAAAAAAAAAAGAAAAAAAAAACAAAA".as_bytes(),
            vec![CigarOp::Match(18), CigarOp::Insertion(4), CigarOp::Match(16)],
        ),
        (
            "CACCAGGCCA".as_bytes(),
            "CACCAGCCA".as_bytes(),
            vec![CigarOp::Match(6), CigarOp::Deletion(1), CigarOp::Match(3)],
        ),
    ];
    for (target, query, mut cigar) in cases {
        let (ts, qs) = fix_cigar(&mut cigar, target, query);
        assert_eq!((ts, qs), (0, 0));
        let once = cigar.clone();
        let (ts2, qs2) = fix_cigar(&mut cigar, target, query);
        assert_eq!((ts2, qs2), (0, 0));
        assert_eq!(cigar, once);
    }
}

#[test]
fn fix_cigar_keeps_an_unshiftable_indel() {
    // the flanking bases differ, so the deletion stays where it is
    let target = "GGAAA".as_bytes();
    let query = "GAA".as_bytes();
    let mut cigar = vec![CigarOp::Match(1), CigarOp::Deletion(2), CigarOp::Match(2)];
    let (ts, qs) = fix_cigar(&mut cigar, target, query);
    assert_eq!((ts, qs), (0, 0));
    assert_eq!(
        cigar,
        [CigarOp::Match(1), CigarOp::Deletion(2), CigarOp::Match(2)]
    );
}

#[test]
fn fix_cigar_strips_leading_deletion() {
    // a leading deletion cannot stay: it is removed and returned as a
    // target-coordinate shift
    let target = "TTAAA".as_bytes();
    let query = "AAA".as_bytes();
    let mut cigar = vec![CigarOp::Deletion(2), CigarOp::Match(3)];
    let (ts, qs) = fix_cigar(&mut cigar, target, query);
    assert_eq!((ts, qs), (2, 0));
    assert_eq!(cigar, [CigarOp::Match(3)]);
}

#[test]
fn fix_cigar_strips_leading_insertion() {
    let target = "AAA".as_bytes();
    let query = "TTAAA".as_bytes();
    let mut cigar = vec![CigarOp::Insertion(2), CigarOp::Match(3)];
    let (ts, qs) = fix_cigar(&mut cigar, target, query);
    assert_eq!((ts, qs), (0, 2));
    assert_eq!(cigar, [CigarOp::Match(3)]);
}

#[test]
fn fix_cigar_drops_zero_runs_and_coalesces() {
    let target = "AAAAAA".as_bytes();
    let query = "AAAAAA".as_bytes();
    let mut cigar = vec![
        CigarOp::Match(0),
        CigarOp::Match(2),
        CigarOp::Mismatch(0),
        CigarOp::Match(4),
    ];
    let (ts, qs) = fix_cigar(&mut cigar, target, query);
    assert_eq!((ts, qs), (0, 0));
    assert_eq!(cigar, [CigarOp::Match(6)]);
}

#[test]
fn fix_cigar_empty_trace() {
    let target = "".as_bytes();
    let query = "".as_bytes();
    let mut cigar: Vec<CigarOp> = vec![];
    let (ts, qs) = fix_cigar(&mut cigar, target, query);
    assert_eq!((ts, qs), (0, 0));
    assert!(cigar.is_empty());
}

#[test]
fn fix_cigar_shift_rewrites_repeat_window() {
    // an insertion inside a homopolymer run moves to the leftmost
    // equivalent placement; here it reaches position 0 and leaves the trace
    // as a query-coordinate shift
    let target = "AAAA".as_bytes();
    let query = "AAAAAA".as_bytes();
    let mut cigar = vec![CigarOp::Match(3), CigarOp::Insertion(2), CigarOp::Match(1)];
    let (ts, qs) = fix_cigar(&mut cigar, target, query);
    assert_eq!((ts, qs), (0, 2));
    assert_eq!(cigar, [CigarOp::Match(4)]);
}
