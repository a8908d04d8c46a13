//! The configuration of a filtering run, and the rules that its values obey.

use vstd::prelude::*;
use crate::error::{Channel, ConfigError, FilterError};

verus! {

/// The values of a command line, before defaults and rules are applied.
#[derive(Clone, Debug, PartialEq, Eq)]
pub struct Arguments {
    /// File containing a list of sequence IDs.
    pub list: Option<String>,
    /// Path to the BAM file.
    pub bam: Option<String>,
    /// Path to the CRAM file.
    pub cram: Option<String>,
    /// Path to the assembly FASTA input file (required for CRAM).
    pub fasta: Option<String>,
    /// Path to the FASTQ file to filter (forward or single reads).
    pub fastq1: Option<String>,
    /// Path to the paired FASTQ file to filter (reverse reads).
    pub fastq2: Option<String>,
    /// Suffix to use for output filtered files, if one was given.
    pub suffix: Option<String>,
    /// Whether to output a filtered FASTA file.
    pub fasta_out: bool,
    /// Whether to output filtered FASTQ files.
    pub fastq_out: bool,
    /// Path to the output list of read IDs.
    pub read_list: Option<String>,
}

/// The configuration of one run: built once, then only read.
#[derive(Clone, Debug, PartialEq, Eq)]
pub struct Config {
    /// File containing a list of sequence IDs.
    pub list: Option<String>,
    /// Path to the BAM file.
    pub bam: Option<String>,
    /// Path to the CRAM file.
    pub cram: Option<String>,
    /// Path to the assembly FASTA input file (required for CRAM).
    pub fasta: Option<String>,
    /// Path to the FASTQ file to filter (forward or single reads).
    pub fastq1: Option<String>,
    /// Path to the paired FASTQ file to filter (reverse reads).
    pub fastq2: Option<String>,
    /// Suffix to use for output filtered files.
    pub suffix: String,
    /// Whether to output a filtered FASTA file.
    pub fasta_out: bool,
    /// Whether to output filtered FASTQ files.
    pub fastq_out: bool,
    /// Path to the output list of read IDs.
    pub read_list: Option<String>,
}

/// The suffix that filtered files get when none is given.
pub open spec fn default_suffix() -> Seq<char> {
    "filtered"@
}

/// The first rule that a combination of inputs and flags breaks, if any.
///
/// Each parameter says whether the input of that name was supplied, or
/// whether the flag of that name is set. The rules, in the order in which
/// they are tried: exactly one of BAM and CRAM is named; a reverse-read file
/// comes with a forward-read file; CRAM comes with a FASTA reference; FASTA
/// output comes with a FASTA input; FASTQ output comes with a forward-read
/// file.
pub open spec fn violation(
    bam: bool,
    cram: bool,
    fasta: bool,
    fastq1: bool,
    fastq2: bool,
    fasta_out: bool,
    fastq_out: bool,
) -> Option<FilterError> {
    if !bam && !cram {
        Some(FilterError::Config(ConfigError::NoAlignment))
    } else if bam && cram {
        Some(FilterError::Config(ConfigError::BothAlignments))
    } else if fastq2 && !fastq1 {
        Some(FilterError::Config(ConfigError::Fastq2WithoutFastq1))
    } else if cram && !fasta {
        Some(FilterError::MissingReference)
    } else if fasta_out && !fasta {
        Some(FilterError::UnsatisfiedDependency(Channel::Fasta))
    } else if fastq_out && !fastq1 {
        Some(FilterError::UnsatisfiedDependency(Channel::Fastq))
    } else {
        None
    }
}

/// Finds the first broken rule; the executable form of [`violation`].
fn first_violation(
    bam: bool,
    cram: bool,
    fasta: bool,
    fastq1: bool,
    fastq2: bool,
    fasta_out: bool,
    fastq_out: bool,
) -> (broken: Option<FilterError>)
    ensures
        broken == violation(bam, cram, fasta, fastq1, fastq2, fasta_out, fastq_out),
{
    if !bam && !cram {
        Some(FilterError::Config(ConfigError::NoAlignment))
    } else if bam && cram {
        Some(FilterError::Config(ConfigError::BothAlignments))
    } else if fastq2 && !fastq1 {
        Some(FilterError::Config(ConfigError::Fastq2WithoutFastq1))
    } else if cram && !fasta {
        Some(FilterError::MissingReference)
    } else if fasta_out && !fasta {
        Some(FilterError::UnsatisfiedDependency(Channel::Fasta))
    } else if fastq_out && !fastq1 {
        Some(FilterError::UnsatisfiedDependency(Channel::Fastq))
    } else {
        None
    }
}

impl Arguments {
    /// The first rule that these values break, if any.
    pub open spec fn violation(self) -> Option<FilterError> {
        violation(
            self.bam is Some,
            self.cram is Some,
            self.fasta is Some,
            self.fastq1 is Some,
            self.fastq2 is Some,
            self.fasta_out,
            self.fastq_out,
        )
    }

    /// The suffix that these values resolve to.
    pub open spec fn resolved_suffix(self) -> Seq<char> {
        match self.suffix {
            Some(s) => s@,
            None => default_suffix(),
        }
    }
}

impl Config {
    /// The first rule that this configuration breaks, if any.
    pub open spec fn violation(self) -> Option<FilterError> {
        violation(
            self.bam is Some,
            self.cram is Some,
            self.fasta is Some,
            self.fastq1 is Some,
            self.fastq2 is Some,
            self.fasta_out,
            self.fastq_out,
        )
    }

    /// A configuration is valid when it breaks no rule.
    pub open spec fn valid(self) -> bool {
        self.violation() is None
    }

    /// Whether this configuration holds the values of `args`, with the
    /// default suffix where `args` has none.
    pub open spec fn resolves(self, args: Arguments) -> bool {
        &&& self.list == args.list
        &&& self.bam == args.bam
        &&& self.cram == args.cram
        &&& self.fasta == args.fasta
        &&& self.fastq1 == args.fastq1
        &&& self.fastq2 == args.fastq2
        &&& self.suffix@ == args.resolved_suffix()
        &&& self.fasta_out == args.fasta_out
        &&& self.fastq_out == args.fastq_out
        &&& self.read_list == args.read_list
    }

    /// Tests the configuration against the rules and names the first one
    /// that it breaks.
    pub fn check(&self) -> (outcome: Result<(), FilterError>)
        ensures
            match self.violation() {
                Some(e) => outcome == Err::<(), FilterError>(e),
                None => outcome is Ok,
            },
    {
        match first_violation(
            self.bam.is_some(),
            self.cram.is_some(),
            self.fasta.is_some(),
            self.fastq1.is_some(),
            self.fastq2.is_some(),
            self.fasta_out,
            self.fastq_out,
        ) {
            Some(e) => Err(e),
            None => Ok(()),
        }
    }
}

/// Turns the values of a command line into a configuration.
///
/// Fails with the first rule that the values break. Otherwise the
/// configuration holds the values unchanged, with `filtered` as the suffix
/// where none was given, and is valid.
pub fn parse(args: Arguments) -> (outcome: Result<Config, FilterError>)
    ensures
        match args.violation() {
            Some(e) => outcome == Err::<Config, FilterError>(e),
            None => outcome is Ok && outcome->Ok_0.resolves(args) && outcome->Ok_0.valid(),
        },
{
    let broken = first_violation(
        args.bam.is_some(),
        args.cram.is_some(),
        args.fasta.is_some(),
        args.fastq1.is_some(),
        args.fastq2.is_some(),
        args.fasta_out,
        args.fastq_out,
    );
    match broken {
        Some(e) => Err(e),
        None => {
            let suffix = match args.suffix {
                Some(s) => s,
                None => "filtered".to_owned(),
            };
            Ok(
                Config {
                    list: args.list,
                    bam: args.bam,
                    cram: args.cram,
                    fasta: args.fasta,
                    fastq1: args.fastq1,
                    fastq2: args.fastq2,
                    suffix,
                    fasta_out: args.fasta_out,
                    fastq_out: args.fastq_out,
                    read_list: args.read_list,
                },
            )
        },
    }
}

} // verus!
