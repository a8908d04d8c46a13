//! The ways in which a filtering run can fail. Every one of them is fatal.

use vstd::prelude::*;

verus! {

/// A contradictory combination of inputs.
#[derive(Clone, Copy, Debug, PartialEq, Eq, Structural)]
pub enum ConfigError {
    /// Neither a BAM nor a CRAM file was named.
    NoAlignment,
    /// Both a BAM and a CRAM file were named.
    BothAlignments,
    /// A reverse-read FASTQ file was named without a forward-read file.
    Fastq2WithoutFastq1,
}

/// An output channel that can be asked for.
#[derive(Clone, Copy, Debug, PartialEq, Eq, Structural)]
pub enum Channel {
    /// The filtered FASTA file.
    Fasta,
    /// The filtered FASTQ file or files.
    Fastq,
}

/// A file of a run that can be missing, unreadable or unwritable.
#[derive(Clone, Copy, Debug, PartialEq, Eq, Structural)]
pub enum FileRole {
    /// The identifier list.
    List,
    /// The forward-read FASTQ file.
    Fastq1,
    /// The reverse-read FASTQ file.
    Fastq2,
    /// One of the files that the run writes.
    Output,
}

/// How two FASTQ streams fell out of step.
#[derive(Clone, Copy, Debug, PartialEq, Eq, Structural)]
pub enum PairingFault {
    /// The forward stream ended while the reverse stream still had a record.
    FirstExhausted,
    /// The reverse stream ended while the forward stream still had a record.
    SecondExhausted,
    /// Both streams gave a record, and their normalized identifiers differ.
    Mismatch,
    /// A reverse record was handed to a reader that was opened on one stream.
    UnexpectedSecond,
}

/// A desynchronized FASTQ pair, with the step at which it was found.
#[derive(Clone, Copy, Debug, PartialEq, Eq, Structural)]
pub struct PairingError {
    /// The number of the failing step, counted from 1.
    pub step: u64,
    /// What went wrong at that step.
    pub fault: PairingFault,
}

/// A fatal error of a filtering run.
#[derive(Clone, Copy, Debug, PartialEq, Eq, Structural)]
pub enum FilterError {
    /// The inputs contradict each other.
    Config(ConfigError),
    /// A file is missing, or cannot be read or written.
    File(FileRole),
    /// A CRAM file was named without the FASTA reference it is decoded against.
    MissingReference,
    /// A CRAM record refers to a sequence that the FASTA reference lacks.
    ReferenceMismatch,
    /// The alignment file holds bytes that are no record.
    CorruptRecord,
    /// The two FASTQ streams are out of step.
    Pairing(PairingError),
    /// An output was asked for without the input it is made from.
    UnsatisfiedDependency(Channel),
}

} // verus!
