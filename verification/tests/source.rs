use cov_tools::error::FilterError;
use cov_tools::record::AlignmentRecord;
use cov_tools::source::{AlignmentFormat, AlignmentSource, FastaIndex};

fn index(names: &[&[u8]]) -> FastaIndex {
    FastaIndex { names: names.iter().map(|n| n.to_vec()).collect() }
}

fn aligned(id: &[u8], reference: Option<&[u8]>) -> AlignmentRecord {
    AlignmentRecord {
        id: id.to_vec(),
        flags: 0,
        sequence: b"ACGT".to_vec(),
        qualities: vec![30; 4],
        reference: reference.map(|r| r.to_vec()),
        position: reference.map(|_| 100),
    }
}

#[test]
fn an_index_knows_its_names() {
    let idx = index(&[b"chr1", b"chr2"]);
    assert!(idx.contains(b"chr1"));
    assert!(idx.contains(b"chr2"));
    assert!(!idx.contains(b"chr3"));
    assert!(!idx.contains(b"chr"));
    assert!(!index(&[]).contains(b"chr1"));
}

#[test]
fn bam_opens_with_or_without_a_reference() {
    assert_eq!(
        AlignmentSource::open(AlignmentFormat::Bam, None),
        Ok(AlignmentSource { format: AlignmentFormat::Bam, reference: None })
    );
    assert!(AlignmentSource::open(AlignmentFormat::Bam, Some(index(&[b"chr1"]))).is_ok());
}

#[test]
fn cram_needs_a_reference_to_open() {
    assert_eq!(AlignmentSource::open(AlignmentFormat::Cram, None), Err(FilterError::MissingReference));
    assert_eq!(
        AlignmentSource::open(AlignmentFormat::Cram, Some(index(&[b"chr1"]))),
        Ok(AlignmentSource { format: AlignmentFormat::Cram, reference: Some(index(&[b"chr1"])) })
    );
}

#[test]
fn a_cram_record_must_name_a_known_sequence() {
    let source = AlignmentSource::open(AlignmentFormat::Cram, Some(index(&[b"chr1"]))).unwrap();
    assert_eq!(source.vet(&aligned(b"r1", Some(b"chr1"))), Ok(()));
    assert_eq!(source.vet(&aligned(b"r1", None)), Ok(()));
    assert_eq!(source.vet(&aligned(b"r1", Some(b"chr2"))), Err(FilterError::ReferenceMismatch));
}

#[test]
fn a_bam_record_is_never_refused() {
    let source = AlignmentSource::open(AlignmentFormat::Bam, None).unwrap();
    assert_eq!(source.vet(&aligned(b"r1", Some(b"chr9"))), Ok(()));
    assert_eq!(source.vet(&aligned(b"r1", None)), Ok(()));
}

#[test]
fn a_cram_source_made_without_reference_refuses_aligned_records() {
    let source = AlignmentSource { format: AlignmentFormat::Cram, reference: None };
    assert_eq!(source.vet(&aligned(b"r1", Some(b"chr1"))), Err(FilterError::ReferenceMismatch));
    assert_eq!(source.vet(&aligned(b"r1", None)), Ok(()));
}
