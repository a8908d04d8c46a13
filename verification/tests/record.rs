use cov_tools::bytes::{append, owned, same};
use cov_tools::record::{AlignmentRecord, FastqRecord};

fn alignment(id: &[u8], flags: u16, sequence: &[u8]) -> AlignmentRecord {
    AlignmentRecord {
        id: id.to_vec(),
        flags,
        sequence: sequence.to_vec(),
        qualities: vec![30; sequence.len()],
        reference: None,
        position: None,
    }
}

fn fastq(id: &[u8], comment: Option<&[u8]>, sequence: &[u8], qualities: &[u8]) -> FastqRecord {
    FastqRecord {
        id: id.to_vec(),
        comment: comment.map(|c| c.to_vec()),
        sequence: sequence.to_vec(),
        qualities: qualities.to_vec(),
    }
}

#[test]
fn fasta_text_is_header_and_bases() {
    assert_eq!(alignment(b"readA", 0, b"ACGT").to_fasta(), b">readA\nACGT\n".to_vec());
    assert_eq!(alignment(b"r", 0, b"").to_fasta(), b">r\n\n".to_vec());
}

#[test]
fn fastq_text_is_four_lines() {
    let record = fastq(b"readA", None, b"ACGT", b"IIII");
    assert_eq!(record.to_fastq(), b"@readA\nACGT\n+\nIIII\n".to_vec());
}

#[test]
fn fastq_text_keeps_the_comment() {
    let record = fastq(b"readA/1", Some(b"1:N:0:ATCACG"), b"AC", b"#I");
    assert_eq!(record.to_fastq(), b"@readA/1 1:N:0:ATCACG\nAC\n+\n#I\n".to_vec());
}

#[test]
fn four_lines_make_a_record() {
    let record = FastqRecord::from_lines(b"@readA", b"ACGT", b"+", b"IIII");
    assert_eq!(record, Some(fastq(b"readA", None, b"ACGT", b"IIII")));
}

#[test]
fn the_header_is_parted_at_its_first_blank() {
    let record = FastqRecord::from_lines(b"@readA 1:N:0 x", b"AC", b"+readA", b"II");
    assert_eq!(record, Some(fastq(b"readA", Some(b"1:N:0 x"), b"AC", b"II")));
    let record = FastqRecord::from_lines(b"@readA\tlane1", b"AC", b"+", b"II");
    assert_eq!(record, Some(fastq(b"readA", Some(b"lane1"), b"AC", b"II")));
    let record = FastqRecord::from_lines(b"@readA ", b"AC", b"+", b"II");
    assert_eq!(record, Some(fastq(b"readA", Some(b""), b"AC", b"II")));
}

#[test]
fn lines_that_are_no_record_give_none() {
    assert_eq!(FastqRecord::from_lines(b"readA", b"AC", b"+", b"II"), None);
    assert_eq!(FastqRecord::from_lines(b"@", b"AC", b"+", b"II"), None);
    assert_eq!(FastqRecord::from_lines(b"", b"AC", b"+", b"II"), None);
    assert_eq!(FastqRecord::from_lines(b"@ readA", b"AC", b"+", b"II"), None);
    assert_eq!(FastqRecord::from_lines(b"@readA", b"AC", b"", b"II"), None);
    assert_eq!(FastqRecord::from_lines(b"@readA", b"AC", b"-", b"II"), None);
    assert_eq!(FastqRecord::from_lines(b"@readA", b"ACG", b"+", b"II"), None);
}

#[test]
fn a_written_record_is_read_back() {
    for record in [
        fastq(b"readA", None, b"ACGT", b"IIII"),
        fastq(b"readA/2", Some(b"2:N:0 extra words"), b"ACGTN", b"!!#II"),
        fastq(b"r", Some(b""), b"", b""),
    ] {
        let text = record.to_fastq();
        let lines: Vec<&[u8]> = text.split(|b| *b == b'\n').collect();
        assert_eq!(lines.len(), 5);
        assert_eq!(FastqRecord::from_lines(lines[0], lines[1], lines[2], lines[3]), Some(record));
    }
}

#[test]
fn duplicate_has_the_same_content() {
    let record = fastq(b"readA", Some(b"c"), b"ACGT", b"IIII");
    assert_eq!(record.duplicate(), record);
    let record = fastq(b"readB", None, b"", b"");
    assert_eq!(record.duplicate(), record);
}

#[test]
fn flag_bits_are_read_one_by_one() {
    let r = alignment(b"r", 0x4, b"A");
    assert!(r.is_unmapped());
    assert!(!r.is_paired());
    assert!(!r.is_first_mate());
    assert!(!r.is_second_mate());
    let r = alignment(b"r", 0x1 | 0x40, b"A");
    assert!(!r.is_unmapped());
    assert!(r.is_paired());
    assert!(r.is_first_mate());
    assert!(!r.is_second_mate());
    let r = alignment(b"r", 0x1 | 0x80 | 0x10, b"A");
    assert!(r.is_paired());
    assert!(r.is_second_mate());
    assert!(!r.is_first_mate());
    let r = alignment(b"r", 0, b"A");
    assert!(!r.is_unmapped() && !r.is_paired() && !r.is_first_mate() && !r.is_second_mate());
}

#[test]
fn append_adds_at_the_end() {
    let mut out = b"ab".to_vec();
    append(&mut out, b"cd");
    assert_eq!(out, b"abcd".to_vec());
    append(&mut out, b"");
    assert_eq!(out, b"abcd".to_vec());
}

#[test]
fn same_compares_content() {
    assert!(same(b"abc", b"abc"));
    assert!(same(b"", b""));
    assert!(!same(b"abc", b"abd"));
    assert!(!same(b"abc", b"ab"));
    assert!(!same(b"", b"a"));
}

#[test]
fn owned_copies_the_bytes() {
    assert_eq!(owned(b"abc"), b"abc".to_vec());
    assert_eq!(owned(b""), Vec::<u8>::new());
}
