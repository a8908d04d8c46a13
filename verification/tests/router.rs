use cov_tools::cli::Config;
use cov_tools::error::{Channel, FilterError};
use cov_tools::record::{AlignmentRecord, FastqRecord, ReadPair};
use cov_tools::router::{output_path, OutputFile, OutputRouter, PairText};

fn path(p: &str) -> Option<String> {
    Some(p.to_string())
}

fn config() -> Config {
    Config {
        list: path("ids.txt"),
        bam: path("reads.bam"),
        cram: None,
        fasta: None,
        fastq1: None,
        fastq2: None,
        suffix: "filtered".to_string(),
        fasta_out: false,
        fastq_out: false,
        read_list: None,
    }
}

fn everything() -> Config {
    Config {
        fasta: path("data/assembly.fa"),
        fastq1: path("data/reads_1.fastq"),
        fastq2: path("data/reads_2.fastq"),
        fasta_out: true,
        fastq_out: true,
        read_list: path("kept.txt"),
        ..config()
    }
}

fn alignment(id: &[u8], sequence: &[u8]) -> AlignmentRecord {
    AlignmentRecord {
        id: id.to_vec(),
        flags: 0,
        sequence: sequence.to_vec(),
        qualities: vec![30; sequence.len()],
        reference: None,
        position: None,
    }
}

fn read(id: &[u8], sequence: &[u8]) -> FastqRecord {
    FastqRecord {
        id: id.to_vec(),
        comment: None,
        sequence: sequence.to_vec(),
        qualities: vec![b'I'; sequence.len()],
    }
}

#[test]
fn the_output_name_is_stem_suffix_extension() {
    assert_eq!(output_path("reads.fastq", "filtered", "fastq"), "reads.filtered.fastq");
    assert_eq!(output_path("assembly.fa", "kept", "fasta"), "assembly.kept.fasta");
    assert_eq!(output_path("dir/sub/reads.fq", "filtered", "fastq"), "dir/sub/reads.filtered.fastq");
}

#[test]
fn only_the_last_extension_is_replaced() {
    assert_eq!(output_path("reads.fastq.gz", "filtered", "fastq"), "reads.fastq.filtered.fastq");
    assert_eq!(output_path("a.b.c", "s", "e"), "a.b.s.e");
}

#[test]
fn a_name_without_extension_is_kept_whole() {
    assert_eq!(output_path("reads", "filtered", "fastq"), "reads.filtered.fastq");
    assert_eq!(output_path("dir.d/reads", "filtered", "fastq"), "dir.d/reads.filtered.fastq");
    assert_eq!(output_path("", "filtered", "fastq"), ".filtered.fastq");
    assert_eq!(output_path("dir/", "s", "e"), "dir/.s.e");
}

#[test]
fn a_leading_dot_is_no_extension() {
    assert_eq!(output_path(".hidden", "filtered", "fastq"), ".hidden.filtered.fastq");
    assert_eq!(output_path("dir/.hidden", "filtered", "fastq"), "dir/.hidden.filtered.fastq");
    assert_eq!(output_path("dir/.hidden.fq", "filtered", "fastq"), "dir/.hidden.filtered.fastq");
}

#[test]
fn the_output_name_takes_any_suffix() {
    assert_eq!(output_path("reads.fq", "", "fastq"), "reads..fastq");
    assert_eq!(output_path("r\u{e9}ads.fq", "s\u{fc}ffix", "fastq"), "r\u{e9}ads.s\u{fc}ffix.fastq");
    assert_eq!(output_path("reads.", "s", "e"), "reads.s.e");
}

#[test]
fn configure_names_the_files_that_are_asked_for() {
    let router = OutputRouter::configure(&everything()).unwrap();
    assert_eq!(router.fasta_path(), &path("data/assembly.filtered.fasta"));
    assert_eq!(router.fastq1_path(), &path("data/reads_1.filtered.fastq"));
    assert_eq!(router.fastq2_path(), &path("data/reads_2.filtered.fastq"));
    assert_eq!(router.manifest_path(), &path("kept.txt"));
    assert!(router.manifest().is_empty());
    assert!(!router.is_closed());
}

#[test]
fn configure_names_no_file_that_is_not_asked_for() {
    let router = OutputRouter::configure(&Config { fasta_out: false, fastq_out: false, ..everything() })
        .unwrap();
    assert_eq!(router.fasta_path(), &None);
    assert_eq!(router.fastq1_path(), &None);
    assert_eq!(router.fastq2_path(), &None);
    assert_eq!(router.manifest_path(), &path("kept.txt"));
    let router = OutputRouter::configure(&config()).unwrap();
    assert_eq!(router.fasta_path(), &None);
    assert_eq!(router.manifest_path(), &None);
    let router = OutputRouter::configure(&Config { fastq2: None, ..everything() }).unwrap();
    assert_eq!(router.fastq1_path(), &path("data/reads_1.filtered.fastq"));
    assert_eq!(router.fastq2_path(), &None);
}

#[test]
fn configure_refuses_an_output_without_its_input() {
    let outcome = OutputRouter::configure(&Config { fasta_out: true, ..config() });
    assert_eq!(outcome.err(), Some(FilterError::UnsatisfiedDependency(Channel::Fasta)));
    let outcome = OutputRouter::configure(&Config { fastq_out: true, ..config() });
    assert_eq!(outcome.err(), Some(FilterError::UnsatisfiedDependency(Channel::Fastq)));
    let outcome = OutputRouter::configure(&Config { fasta_out: true, fastq_out: true, ..config() });
    assert_eq!(outcome.err(), Some(FilterError::UnsatisfiedDependency(Channel::Fasta)));
    let outcome = OutputRouter::configure(&Config {
        fastq2: path("r2.fastq"),
        fastq_out: true,
        ..config()
    });
    assert_eq!(outcome.err(), Some(FilterError::UnsatisfiedDependency(Channel::Fastq)));
}

#[test]
fn a_written_alignment_gives_fasta_text_and_a_manifest_entry() {
    let mut router = OutputRouter::configure(&everything()).unwrap();
    assert_eq!(router.write_alignment(&alignment(b"readA/1", b"ACGT")), Some(b">readA/1\nACGT\n".to_vec()));
    assert_eq!(router.write_alignment(&alignment(b"readB", b"GG")), Some(b">readB\nGG\n".to_vec()));
    assert_eq!(router.manifest(), &vec![b"readA".to_vec(), b"readB".to_vec()]);
}

#[test]
fn an_alignment_leaves_no_trace_without_a_fasta_file() {
    let mut router = OutputRouter::configure(&Config { fasta_out: false, ..everything() }).unwrap();
    assert_eq!(router.write_alignment(&alignment(b"readA", b"ACGT")), None);
    assert!(router.manifest().is_empty());
}

#[test]
fn no_manifest_is_kept_without_a_file_for_it() {
    let mut router = OutputRouter::configure(&Config { read_list: None, ..everything() }).unwrap();
    assert!(router.write_alignment(&alignment(b"readA", b"ACGT")).is_some());
    router.record_manifest(b"readB");
    assert!(router.manifest().is_empty());
    assert_eq!(router.finalize(), None);
    assert!(router.is_closed());
}

#[test]
fn a_written_pair_gives_text_for_both_files() {
    let mut router = OutputRouter::configure(&everything()).unwrap();
    let pair = ReadPair { first: read(b"readA/1", b"AC"), second: Some(read(b"readA/2", b"GT")) };
    assert_eq!(
        router.write_read_pair(&pair),
        Some(PairText {
            first: b"@readA/1\nAC\n+\nII\n".to_vec(),
            second: Some(b"@readA/2\nGT\n+\nII\n".to_vec()),
        })
    );
    assert_eq!(router.manifest(), &vec![b"readA".to_vec()]);
}

#[test]
fn a_single_read_gives_text_for_one_file() {
    let mut router = OutputRouter::configure(&Config { fastq2: None, ..everything() }).unwrap();
    let single = ReadPair { first: read(b"readA", b"AC"), second: None };
    assert_eq!(
        router.write_read_pair(&single),
        Some(PairText { first: b"@readA\nAC\n+\nII\n".to_vec(), second: None })
    );
    let pair = ReadPair { first: read(b"readB/1", b"AC"), second: Some(read(b"readB/2", b"GT")) };
    assert_eq!(
        router.write_read_pair(&pair),
        Some(PairText { first: b"@readB/1\nAC\n+\nII\n".to_vec(), second: None })
    );
    assert_eq!(router.manifest(), &vec![b"readA".to_vec(), b"readB".to_vec()]);
}

#[test]
fn a_pair_leaves_no_trace_without_fastq_files() {
    let mut router = OutputRouter::configure(&Config { fastq_out: false, ..everything() }).unwrap();
    let pair = ReadPair { first: read(b"readA/1", b"AC"), second: Some(read(b"readA/2", b"GT")) };
    assert_eq!(router.write_read_pair(&pair), None);
    assert!(router.manifest().is_empty());
}

#[test]
fn record_manifest_enters_the_normalized_name() {
    let mut router = OutputRouter::configure(&everything()).unwrap();
    router.record_manifest(b"readC.2");
    router.record_manifest(b"readD");
    assert_eq!(router.manifest(), &vec![b"readC".to_vec(), b"readD".to_vec()]);
}

#[test]
fn finalize_gives_the_manifest_one_name_per_line() {
    let mut router = OutputRouter::configure(&everything()).unwrap();
    router.write_alignment(&alignment(b"readA", b"ACGT"));
    router.write_alignment(&alignment(b"readB/2", b"ACGT"));
    assert_eq!(router.finalize(), Some(b"readA\nreadB\n".to_vec()));
    assert!(router.is_closed());
}

#[test]
fn finalize_of_an_empty_manifest_gives_empty_text() {
    let mut router = OutputRouter::configure(&everything()).unwrap();
    assert_eq!(router.finalize(), Some(Vec::new()));
}

#[test]
fn a_closed_router_takes_nothing_more() {
    let mut router = OutputRouter::configure(&everything()).unwrap();
    router.write_alignment(&alignment(b"readA", b"ACGT"));
    assert!(router.finalize().is_some());
    assert_eq!(router.write_alignment(&alignment(b"readB", b"ACGT")), None);
    let pair = ReadPair { first: read(b"readC", b"AC"), second: None };
    assert_eq!(router.write_read_pair(&pair), None);
    router.record_manifest(b"readD");
    assert_eq!(router.manifest(), &vec![b"readA".to_vec()]);
    assert_eq!(router.finalize(), None);
}

#[test]
fn an_idle_router_is_closed_and_names_nothing() {
    let mut router = OutputRouter::idle();
    assert!(router.is_closed());
    assert_eq!(router.fasta_path(), &None);
    assert_eq!(router.fastq1_path(), &None);
    assert_eq!(router.fastq2_path(), &None);
    assert_eq!(router.manifest_path(), &None);
    assert_eq!(router.write_alignment(&alignment(b"readA", b"ACGT")), None);
    assert_eq!(router.finalize(), None);
}

#[test]
fn the_manifest_is_closed_last() {
    let router = OutputRouter::configure(&everything()).unwrap();
    assert_eq!(
        router.closing_order(),
        vec![OutputFile::Fasta, OutputFile::Fastq1, OutputFile::Fastq2, OutputFile::Manifest]
    );
    let router = OutputRouter::configure(&Config { fasta_out: false, fastq2: None, ..everything() }).unwrap();
    assert_eq!(router.closing_order(), vec![OutputFile::Fastq1, OutputFile::Manifest]);
    let router = OutputRouter::configure(&Config { read_list: None, ..everything() }).unwrap();
    assert_eq!(router.closing_order(), vec![OutputFile::Fasta, OutputFile::Fastq1, OutputFile::Fastq2]);
    assert_eq!(OutputRouter::idle().closing_order(), Vec::<OutputFile>::new());
}
