use haec_align::cigar::{cigar_to_string, AlignError, CigarOp};

#[test]
fn reverse_swaps_indels() {
    assert_eq!(CigarOp::Insertion(7).reverse(), CigarOp::Deletion(7));
    assert_eq!(CigarOp::Deletion(7).reverse(), CigarOp::Insertion(7));
    assert_eq!(CigarOp::Match(5).reverse(), CigarOp::Match(5));
    assert_eq!(CigarOp::Mismatch(5).reverse(), CigarOp::Mismatch(5));
}

#[test]
fn get_length_reads_the_run() {
    assert_eq!(CigarOp::Match(4).get_length(), 4);
    assert_eq!(CigarOp::Mismatch(0).get_length(), 0);
    assert_eq!(CigarOp::Insertion(9).get_length(), 9);
    assert_eq!(CigarOp::Deletion(1).get_length(), 1);
}

#[test]
fn with_length_keeps_the_kind() {
    assert_eq!(CigarOp::Match(4).with_length(8), CigarOp::Match(8));
    assert_eq!(CigarOp::Mismatch(4).with_length(8), CigarOp::Mismatch(8));
    assert_eq!(CigarOp::Insertion(4).with_length(8), CigarOp::Insertion(8));
    assert_eq!(CigarOp::Deletion(4).with_length(8), CigarOp::Deletion(8));
}

#[test]
fn from_pair_accepts_the_four_symbols() {
    assert_eq!(CigarOp::from_pair(3, 'M'), Ok(CigarOp::Match(3)));
    assert_eq!(CigarOp::from_pair(3, 'X'), Ok(CigarOp::Mismatch(3)));
    assert_eq!(CigarOp::from_pair(3, 'I'), Ok(CigarOp::Insertion(3)));
    assert_eq!(CigarOp::from_pair(3, 'D'), Ok(CigarOp::Deletion(3)));
}

#[test]
fn from_pair_rejects_other_symbols() {
    assert_eq!(CigarOp::from_pair(3, 'Z'), Err(AlignError::InvalidCigarSymbol));
    assert_eq!(CigarOp::from_pair(3, '='), Err(AlignError::InvalidCigarSymbol));
    assert_eq!(CigarOp::from_pair(0, 'm'), Err(AlignError::InvalidCigarSymbol));
}

#[test]
fn op_text_uses_extended_symbols() {
    assert_eq!(CigarOp::Match(16).to_text(), "16=");
    assert_eq!(CigarOp::Mismatch(5).to_text(), "5X");
    assert_eq!(CigarOp::Insertion(120).to_text(), "120I");
    assert_eq!(CigarOp::Deletion(3).to_text(), "3D");
    assert_eq!(CigarOp::Match(0).to_text(), "0=");
}

#[test]
fn cigar_to_string_concatenates_in_order() {
    let cigar = vec![
        CigarOp::Match(90),
        CigarOp::Mismatch(5),
        CigarOp::Insertion(3),
        CigarOp::Deletion(2),
    ];
    assert_eq!(cigar_to_string(&cigar), "90=5X3I2D");
    let empty: Vec<CigarOp> = vec![];
    assert_eq!(cigar_to_string(&empty), "");
}
