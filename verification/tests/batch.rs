use cov_tools::batch::{run, Outputs};
use cov_tools::cli::Config;
use cov_tools::error::{ConfigError, FilterError, PairingError, PairingFault};
use cov_tools::identifier::normalize;
use cov_tools::pipeline::Summary;
use cov_tools::record::{AlignmentRecord, FastqRecord};
use cov_tools::source::FastaIndex;

fn path(p: &str) -> Option<String> {
    Some(p.to_string())
}

fn config() -> Config {
    Config {
        list: path("ids.txt"),
        bam: path("reads.bam"),
        cram: None,
        fasta: path("assembly.fa"),
        fastq1: None,
        fastq2: None,
        suffix: "filtered".to_string(),
        fasta_out: true,
        fastq_out: false,
        read_list: path("kept.txt"),
    }
}

fn paired_config() -> Config {
    Config {
        fastq1: path("reads_1.fastq"),
        fastq2: path("reads_2.fastq"),
        fastq_out: true,
        ..config()
    }
}

fn alignment(id: &[u8], sequence: &[u8]) -> AlignmentRecord {
    AlignmentRecord {
        id: id.to_vec(),
        flags: 0,
        sequence: sequence.to_vec(),
        qualities: vec![30; sequence.len()],
        reference: Some(b"chr1".to_vec()),
        position: Some(7),
    }
}

fn read(id: &[u8], sequence: &[u8]) -> FastqRecord {
    FastqRecord {
        id: id.to_vec(),
        comment: None,
        sequence: sequence.to_vec(),
        qualities: vec![b'I'; sequence.len()],
    }
}

fn counts(a: u64, b: u64, c: u64, d: u64) -> Summary {
    Summary { alignments_seen: a, alignments_matched: b, pairs_seen: c, pairs_matched: d }
}

fn names_of_fastq(text: &[u8]) -> Vec<Vec<u8>> {
    let lines: Vec<&[u8]> = text.split(|b| *b == b'\n').collect();
    let mut names = Vec::new();
    let mut i = 0;
    while i + 3 < lines.len() {
        let record = FastqRecord::from_lines(lines[i], lines[i + 1], lines[i + 2], lines[i + 3]).unwrap();
        names.push(record.id);
        i += 4;
    }
    names
}

#[test]
fn only_the_listed_alignment_is_written() {
    let alignments = vec![alignment(b"readA", b"ACGT"), alignment(b"readB", b"GGCC")];
    let outputs = run(&config(), b"readA\n", None, &alignments, &vec![], &vec![]).unwrap();
    assert_eq!(
        outputs,
        Outputs {
            fasta: Some(b">readA\nACGT\n".to_vec()),
            fastq1: None,
            fastq2: None,
            manifest: Some(b"readA\n".to_vec()),
            summary: counts(2, 1, 0, 0),
        }
    );
}

#[test]
fn cram_without_fasta_fails_before_any_output() {
    let cfg = Config {
        bam: None,
        cram: path("reads.cram"),
        fasta: None,
        fasta_out: false,
        ..config()
    };
    let alignments = vec![alignment(b"readA", b"ACGT")];
    assert_eq!(
        run(&cfg, b"readA\n", None, &alignments, &vec![], &vec![]),
        Err(FilterError::MissingReference)
    );
}

#[test]
fn fastq2_without_fastq1_is_refused() {
    let cfg = Config { fastq2: path("reads_2.fastq"), ..config() };
    assert_eq!(
        run(&cfg, b"readA\n", None, &vec![], &vec![], &vec![read(b"readA", b"AC")]),
        Err(FilterError::Config(ConfigError::Fastq2WithoutFastq1))
    );
}

#[test]
fn three_forward_and_two_reverse_records_fail_at_the_third_step() {
    let first = vec![read(b"readA/1", b"AC"), read(b"readB/1", b"AC"), read(b"readC/1", b"AC")];
    let second = vec![read(b"readA/2", b"GT"), read(b"readB/2", b"GT")];
    assert_eq!(
        run(&paired_config(), b"readA\nreadB\nreadC\n", None, &vec![], &first, &second),
        Err(FilterError::Pairing(PairingError { step: 3, fault: PairingFault::SecondExhausted }))
    );
}

#[test]
fn two_forward_and_three_reverse_records_fail_at_the_third_step() {
    let first = vec![read(b"readA/1", b"AC"), read(b"readB/1", b"AC")];
    let second = vec![read(b"readA/2", b"GT"), read(b"readB/2", b"GT"), read(b"readC/2", b"GT")];
    assert_eq!(
        run(&paired_config(), b"readA\n", None, &vec![], &first, &second),
        Err(FilterError::Pairing(PairingError { step: 3, fault: PairingFault::FirstExhausted }))
    );
}

#[test]
fn mates_with_different_names_fail_at_their_step() {
    let first = vec![read(b"readA/1", b"AC"), read(b"readB/1", b"AC")];
    let second = vec![read(b"readA/2", b"GT"), read(b"readX/2", b"GT")];
    assert_eq!(
        run(&paired_config(), b"readA\n", None, &vec![], &first, &second),
        Err(FilterError::Pairing(PairingError { step: 2, fault: PairingFault::Mismatch }))
    );
}

#[test]
fn a_record_of_the_list_matches_when_both_mates_are_listed() {
    let alignments = vec![alignment(b"read1", b"ACGT"), alignment(b"read2", b"TTTT")];
    let outputs = run(&config(), b"read1/1\nread1/2\n", None, &alignments, &vec![], &vec![]).unwrap();
    assert_eq!(outputs.fasta, Some(b">read1\nACGT\n".to_vec()));
    assert_eq!(outputs.manifest, Some(b"read1\n".to_vec()));
    assert_eq!(outputs.summary, counts(2, 1, 0, 0));
}

#[test]
fn kept_pairs_go_to_both_files_in_step() {
    let first = vec![
        read(b"readA/1", b"AA"),
        read(b"readB/1", b"CC"),
        read(b"readC/1", b"GG"),
        read(b"readD/1", b"TT"),
    ];
    let second = vec![
        read(b"readA/2", b"aa"),
        read(b"readB/2", b"cc"),
        read(b"readC/2", b"gg"),
        read(b"readD/2", b"tt"),
    ];
    let outputs = run(&paired_config(), b"readD\nreadB\n", None, &vec![], &first, &second).unwrap();
    assert_eq!(outputs.fastq1, Some(b"@readB/1\nCC\n+\nII\n@readD/1\nTT\n+\nII\n".to_vec()));
    assert_eq!(outputs.fastq2, Some(b"@readB/2\ncc\n+\nII\n@readD/2\ntt\n+\nII\n".to_vec()));
    assert_eq!(outputs.fasta, Some(Vec::new()));
    assert_eq!(outputs.manifest, Some(b"readB\nreadD\n".to_vec()));
    assert_eq!(outputs.summary, counts(0, 0, 4, 2));
    let forward = names_of_fastq(outputs.fastq1.as_ref().unwrap());
    let reverse = names_of_fastq(outputs.fastq2.as_ref().unwrap());
    assert_eq!(forward.len(), reverse.len());
    for (a, b) in forward.iter().zip(reverse.iter()) {
        assert_eq!(normalize(a), normalize(b));
    }
}

#[test]
fn a_single_fastq_file_is_filtered_alone() {
    let cfg = Config { fastq2: None, ..paired_config() };
    let first = vec![read(b"readA", b"AA"), read(b"readB", b"CC")];
    let outputs = run(&cfg, b"readB\n", None, &vec![], &first, &vec![]).unwrap();
    assert_eq!(outputs.fastq1, Some(b"@readB\nCC\n+\nII\n".to_vec()));
    assert_eq!(outputs.fastq2, None);
    assert_eq!(outputs.summary, counts(0, 0, 2, 1));
}

#[test]
fn reverse_records_without_a_reverse_file_are_refused() {
    let cfg = Config { fastq2: None, ..paired_config() };
    let first = vec![read(b"readA", b"AA")];
    let second = vec![read(b"readA", b"aa")];
    assert_eq!(
        run(&cfg, b"readA\n", None, &vec![], &first, &second),
        Err(FilterError::Pairing(PairingError { step: 1, fault: PairingFault::UnexpectedSecond }))
    );
}

#[test]
fn alignments_and_reads_are_filtered_against_one_list() {
    let alignments = vec![alignment(b"readA", b"ACGT"), alignment(b"readB", b"GGCC"), alignment(b"readA", b"TTTT")];
    let first = vec![read(b"readB/1", b"CC"), read(b"readC/1", b"GG")];
    let second = vec![read(b"readB/2", b"cc"), read(b"readC/2", b"gg")];
    let outputs = run(&paired_config(), b"readA\nreadB\n", None, &alignments, &first, &second).unwrap();
    assert_eq!(outputs.fasta, Some(b">readA\nACGT\n>readB\nGGCC\n>readA\nTTTT\n".to_vec()));
    assert_eq!(outputs.fastq1, Some(b"@readB/1\nCC\n+\nII\n".to_vec()));
    assert_eq!(outputs.fastq2, Some(b"@readB/2\ncc\n+\nII\n".to_vec()));
    assert_eq!(outputs.manifest, Some(b"readA\nreadB\nreadA\nreadB\n".to_vec()));
    assert_eq!(outputs.summary, counts(3, 3, 2, 1));
}

#[test]
fn the_manifest_names_only_what_was_written() {
    let cfg = Config { fasta_out: false, ..paired_config() };
    let alignments = vec![alignment(b"readA", b"ACGT")];
    let first = vec![read(b"readB/1", b"CC")];
    let second = vec![read(b"readB/2", b"cc")];
    let outputs = run(&cfg, b"readA\nreadB\n", None, &alignments, &first, &second).unwrap();
    assert_eq!(outputs.fasta, None);
    assert_eq!(outputs.manifest, Some(b"readB\n".to_vec()));
    assert_eq!(outputs.summary, counts(1, 1, 1, 1));
    let cfg = Config { fasta_out: false, fastq_out: false, ..paired_config() };
    let outputs = run(&cfg, b"readA\nreadB\n", None, &alignments, &first, &second).unwrap();
    assert_eq!(outputs.manifest, Some(Vec::new()));
    assert_eq!(outputs.fastq1, None);
}

#[test]
fn no_manifest_is_given_where_none_is_asked_for() {
    let cfg = Config { read_list: None, ..config() };
    let alignments = vec![alignment(b"readA", b"ACGT")];
    let outputs = run(&cfg, b"readA\n", None, &alignments, &vec![], &vec![]).unwrap();
    assert_eq!(outputs.manifest, None);
    assert_eq!(outputs.fasta, Some(b">readA\nACGT\n".to_vec()));
}

#[test]
fn every_written_name_is_in_the_list_and_in_the_input() {
    let list = b"readA\nreadC/1\nreadZ\n";
    let alignments = vec![
        alignment(b"readA/2", b"AA"),
        alignment(b"readB", b"CC"),
        alignment(b"readC", b"GG"),
        alignment(b"readD.1", b"TT"),
    ];
    let outputs = run(&config(), list, None, &alignments, &vec![], &vec![]).unwrap();
    let manifest = outputs.manifest.unwrap();
    let written: Vec<&[u8]> = manifest.split(|b| *b == b'\n').filter(|l| !l.is_empty()).collect();
    assert_eq!(written, vec![&b"readA"[..], &b"readC"[..]]);
    let set = cov_tools::identifier::IdentifierSet::load(list);
    for name in &written {
        assert!(set.contains(name));
        assert!(alignments.iter().any(|r| normalize(&r.id) == *name));
    }
}

#[test]
fn two_runs_on_the_same_inputs_give_the_same_bytes() {
    let alignments = vec![alignment(b"readA", b"ACGT"), alignment(b"readB", b"GGCC")];
    let first = vec![read(b"readB/1", b"CC"), read(b"readC/1", b"GG")];
    let second = vec![read(b"readB/2", b"cc"), read(b"readC/2", b"gg")];
    let one = run(&paired_config(), b"readB\nreadA\n", None, &alignments, &first, &second);
    let other = run(&paired_config(), b"readB\nreadA\n", None, &alignments, &first, &second);
    assert!(one.is_ok());
    assert_eq!(one, other);
}

#[test]
fn filtering_the_kept_records_again_keeps_all() {
    let alignments = vec![alignment(b"readA", b"ACGT"), alignment(b"readB", b"GGCC"), alignment(b"readA/1", b"TT")];
    let once = run(&config(), b"readA\n", None, &alignments, &vec![], &vec![]).unwrap();
    let kept = vec![alignment(b"readA", b"ACGT"), alignment(b"readA/1", b"TT")];
    let twice = run(&config(), b"readA\n", None, &kept, &vec![], &vec![]).unwrap();
    assert_eq!(once.fasta, twice.fasta);
    assert_eq!(once.fasta, Some(b">readA\nACGT\n>readA/1\nTT\n".to_vec()));
}

#[test]
fn a_cram_record_on_an_unknown_sequence_fails_the_run() {
    let cfg = Config { bam: None, cram: path("reads.cram"), ..config() };
    let index = FastaIndex { names: vec![b"chr2".to_vec()] };
    let alignments = vec![alignment(b"readA", b"ACGT")];
    assert_eq!(
        run(&cfg, b"readA\n", Some(index), &alignments, &vec![], &vec![]),
        Err(FilterError::ReferenceMismatch)
    );
    let index = FastaIndex { names: vec![b"chr1".to_vec()] };
    assert!(run(&cfg, b"readA\n", Some(index), &alignments, &vec![], &vec![]).is_ok());
}

#[test]
fn an_empty_run_gives_empty_outputs() {
    let outputs = run(&paired_config(), b"", None, &vec![], &vec![], &vec![]).unwrap();
    assert_eq!(
        outputs,
        Outputs {
            fasta: Some(Vec::new()),
            fastq1: Some(Vec::new()),
            fastq2: Some(Vec::new()),
            manifest: Some(Vec::new()),
            summary: counts(0, 0, 0, 0),
        }
    );
}
