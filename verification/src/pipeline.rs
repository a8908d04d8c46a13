//! The filtering run as a state machine.
//!
//! A pipeline starts in `Configuring`, streams records while in `Streaming`,
//! closes its outputs in `Finalizing`, and ends in `Completed` or `Failed`.
//! The caller does the reading and the writing: it hands each record to the
//! pipeline and appends the text that comes back to the file it belongs to.
//! A call that the current state does not take changes nothing.

use vstd::prelude::*;
use crate::cli::Config;
use crate::error::{FilterError, FileRole};
use crate::identifier::{listed, IdentifierSet};
use crate::matcher::keeps;
use crate::error::PairingError;
use crate::pairing::{pairing_fault, step_after, FastqPairReader};
use crate::record::{
    optional_bytes,
    optional_record,
    AlignmentRecord,
    AlignmentView,
    FastqRecord,
    FastqView,
    PairView,
};
use crate::router::{optional_pair_text, routed, OutputRouter, PairText, PairTextView, RouterView};
use crate::source::{optional_index, AlignmentFormat, AlignmentSource, FastaIndex, SourceView};

verus! {

/// Where a run stands.
#[derive(Clone, Copy, Debug, PartialEq, Eq, Structural)]
pub enum PipelineState {
    /// Nothing is set up yet.
    Configuring,
    /// Records are taken.
    Streaming,
    /// The input has ended and the outputs are being closed.
    Finalizing,
    /// All outputs are closed and whole.
    Completed,
    /// The run was given up. What was written so far is not to be trusted.
    Failed(FilterError),
}

/// The counts of a run. A count stops at the largest number that it can
/// hold.
#[derive(Clone, Copy, Debug, PartialEq, Eq, Structural)]
pub struct Summary {
    /// Alignment records taken.
    pub alignments_seen: u64,
    /// Alignment records that the list names.
    pub alignments_matched: u64,
    /// FASTQ records or pairs taken.
    pub pairs_seen: u64,
    /// FASTQ records or pairs that the list names.
    pub pairs_matched: u64,
}

/// A filtering run.
pub struct FilterPipeline {
    state: PipelineState,
    set: IdentifierSet,
    source: AlignmentSource,
    reader: FastqPairReader,
    router: OutputRouter,
    summary: Summary,
}

/// What a pipeline holds.
pub struct PipelineView {
    pub state: PipelineState,
    pub set: Set<Seq<u8>>,
    pub source: SourceView,
    pub reader: FastqPairReader,
    pub router: RouterView,
    pub summary: Summary,
}

/// The container that `config` names.
pub open spec fn format_of(config: Config) -> AlignmentFormat {
    if config.cram is Some {
        AlignmentFormat::Cram
    } else {
        AlignmentFormat::Bam
    }
}

/// Why a run cannot start, if it cannot: a rule that `config` breaks, a
/// list that is not named, or a CRAM file whose reference was not loaded.
pub open spec fn setup_error(config: Config, reference: Option<Seq<Seq<u8>>>) -> Option<
    FilterError,
> {
    if config.violation() is Some {
        config.violation()
    } else if config.list is None {
        Some(FilterError::File(FileRole::List))
    } else if config.cram is Some && reference is None {
        Some(FilterError::MissingReference)
    } else {
        None
    }
}

/// The exit code of a process whose run stands at `state`: 0 for a completed
/// run, 1 for any other.
pub open spec fn exit_code_of(state: PipelineState) -> u8 {
    if state == PipelineState::Completed {
        0
    } else {
        1
    }
}

/// What a call reports: the error of a failed pipeline, and nothing
/// otherwise.
pub open spec fn verdict(state: PipelineState) -> Result<(), FilterError> {
    match state {
        PipelineState::Failed(e) => Err(e),
        _ => Ok(()),
    }
}

impl PipelineView {
    /// A pipeline before it is configured.
    pub open spec fn initial() -> PipelineView {
        PipelineView {
            state: PipelineState::Configuring,
            set: Set::empty(),
            source: SourceView { format: AlignmentFormat::Bam, reference: None },
            reader: FastqPairReader { paired: false, delivered: 0 },
            router: RouterView {
                fasta: None,
                fastq1: None,
                fastq2: None,
                read_list: None,
                manifest: Seq::empty(),
                closed: true,
            },
            summary: Summary {
                alignments_seen: 0,
                alignments_matched: 0,
                pairs_seen: 0,
                pairs_matched: 0,
            },
        }
    }

    /// This pipeline in another state.
    pub open spec fn moved_to(self, state: PipelineState) -> PipelineView {
        PipelineView {
            state,
            set: self.set,
            source: self.source,
            reader: self.reader,
            router: self.router,
            summary: self.summary,
        }
    }

    /// The pipeline after it was configured. A pipeline that is past
    /// `Configuring` stays as it is. Otherwise it fails where the run cannot
    /// start, creating no output; else it holds the identifiers of the list,
    /// the source, a reader at the start of its streams and the planned
    /// outputs, and streams.
    pub open spec fn configured(
        self,
        config: Config,
        list: Seq<u8>,
        reference: Option<Seq<Seq<u8>>>,
    ) -> PipelineView {
        if self.state != PipelineState::Configuring {
            self
        } else {
            match setup_error(config, reference) {
                Some(e) => self.moved_to(PipelineState::Failed(e)),
                None => PipelineView {
                    state: PipelineState::Streaming,
                    set: listed(list),
                    source: SourceView { format: format_of(config), reference },
                    reader: FastqPairReader { paired: config.fastq2 is Some, delivered: 0 },
                    router: routed(config),
                    summary: self.summary,
                },
            }
        }
    }

    /// The pipeline after an alignment record, and what the call gives: the
    /// text to append to the FASTA file, if any. A record that the reference
    /// does not allow fails the run. Any other record is counted; one that
    /// the list names is counted as matched and handed to the router.
    pub open spec fn alignment_step(self, record: AlignmentView) -> (
        PipelineView,
        Result<Option<Seq<u8>>, FilterError>,
    ) {
        match self.state {
            PipelineState::Streaming => if !self.source.allows(record) {
                (
                    self.moved_to(PipelineState::Failed(FilterError::ReferenceMismatch)),
                    Err(FilterError::ReferenceMismatch),
                )
            } else if keeps(self.set, record.id) {
                (
                    PipelineView {
                        state: self.state,
                        set: self.set,
                        source: self.source,
                        reader: self.reader,
                        router: self.router.alignment_written(record).0,
                        summary: Summary {
                            alignments_seen: step_after(self.summary.alignments_seen),
                            alignments_matched: step_after(self.summary.alignments_matched),
                            pairs_seen: self.summary.pairs_seen,
                            pairs_matched: self.summary.pairs_matched,
                        },
                    },
                    Ok(self.router.alignment_written(record).1),
                )
            } else {
                (
                    PipelineView {
                        state: self.state,
                        set: self.set,
                        source: self.source,
                        reader: self.reader,
                        router: self.router,
                        summary: Summary {
                            alignments_seen: step_after(self.summary.alignments_seen),
                            alignments_matched: self.summary.alignments_matched,
                            pairs_seen: self.summary.pairs_seen,
                            pairs_matched: self.summary.pairs_matched,
                        },
                    },
                    Ok(None),
                )
            },
            PipelineState::Failed(e) => (self, Err(e)),
            _ => (self, Ok(None)),
        }
    }

    /// The pipeline after one step over the FASTQ streams, and what the call
    /// gives: the text to append to the FASTQ files, if any. Streams that
    /// are out of step fail the run with the number of the step. The end of
    /// all streams changes nothing. Any other step is counted; a record or
    /// pair that the list names is counted as matched and handed to the
    /// router.
    pub open spec fn reads_step(self, first: Option<FastqView>, second: Option<FastqView>) -> (
        PipelineView,
        Result<Option<PairTextView>, FilterError>,
    ) {
        match self.state {
            PipelineState::Streaming => match pairing_fault(self.reader.paired, first, second) {
                Some(fault) => {
                    let e = FilterError::Pairing(
                        PairingError { step: step_after(self.reader.delivered), fault },
                    );
                    (self.moved_to(PipelineState::Failed(e)), Err(e))
                },
                None => match first {
                    None => (self, Ok(None)),
                    Some(a) => {
                        let pair = PairView { first: a, second };
                        let reader = FastqPairReader {
                            paired: self.reader.paired,
                            delivered: step_after(self.reader.delivered),
                        };
                        if keeps(self.set, a.id) {
                            (
                                PipelineView {
                                    state: self.state,
                                    set: self.set,
                                    source: self.source,
                                    reader,
                                    router: self.router.pair_written(pair).0,
                                    summary: Summary {
                                        alignments_seen: self.summary.alignments_seen,
                                        alignments_matched: self.summary.alignments_matched,
                                        pairs_seen: step_after(self.summary.pairs_seen),
                                        pairs_matched: step_after(self.summary.pairs_matched),
                                    },
                                },
                                Ok(self.router.pair_written(pair).1),
                            )
                        } else {
                            (
                                PipelineView {
                                    state: self.state,
                                    set: self.set,
                                    source: self.source,
                                    reader,
                                    router: self.router,
                                    summary: Summary {
                                        alignments_seen: self.summary.alignments_seen,
                                        alignments_matched: self.summary.alignments_matched,
                                        pairs_seen: step_after(self.summary.pairs_seen),
                                        pairs_matched: self.summary.pairs_matched,
                                    },
                                },
                                Ok(None),
                            )
                        }
                    },
                },
            },
            PipelineState::Failed(e) => (self, Err(e)),
            _ => (self, Ok(None)),
        }
    }

    /// The pipeline after the caller reported a fatal error. A run that has
    /// not ended fails with it; one that has ended stays as it is.
    pub open spec fn faulted(self, error: FilterError) -> PipelineView {
        match self.state {
            PipelineState::Completed => self,
            PipelineState::Failed(_) => self,
            _ => self.moved_to(PipelineState::Failed(error)),
        }
    }

    /// The pipeline after the end of all input, and what the call gives: the
    /// text of the manifest, where one is written. Only a streaming pipeline
    /// closes its router; a failed one never does.
    pub open spec fn finished(self) -> (PipelineView, Result<Option<Seq<u8>>, FilterError>) {
        match self.state {
            PipelineState::Streaming => (
                PipelineView {
                    state: PipelineState::Finalizing,
                    set: self.set,
                    source: self.source,
                    reader: self.reader,
                    router: self.router.finalized().0,
                    summary: self.summary,
                },
                Ok(self.router.finalized().1),
            ),
            PipelineState::Failed(e) => (self, Err(e)),
            _ => (self, Ok(None)),
        }
    }

    /// The pipeline after the caller has closed every output.
    pub open spec fn completed(self) -> PipelineView {
        match self.state {
            PipelineState::Finalizing => self.moved_to(PipelineState::Completed),
            _ => self,
        }
    }
}

/// What the outcome of a call that may give FASTA or manifest text holds.
pub open spec fn text_outcome(outcome: Result<Option<Vec<u8>>, FilterError>) -> Result<
    Option<Seq<u8>>,
    FilterError,
> {
    match outcome {
        Ok(text) => Ok(optional_bytes(text)),
        Err(e) => Err(e),
    }
}

/// What the outcome of a call that may give FASTQ text holds.
pub open spec fn pair_outcome(outcome: Result<Option<PairText>, FilterError>) -> Result<
    Option<PairTextView>,
    FilterError,
> {
    match outcome {
        Ok(text) => Ok(optional_pair_text(text)),
        Err(e) => Err(e),
    }
}

impl View for FilterPipeline {
    type V = PipelineView;

    closed spec fn view(&self) -> PipelineView {
        PipelineView {
            state: self.state,
            set: self.set@,
            source: self.source@,
            reader: self.reader,
            router: self.router@,
            summary: self.summary,
        }
    }
}

/// Counts one more, stopping at the largest number.
fn bump(n: u64) -> (m: u64)
    ensures
        m == step_after(n),
{
    if n < u64::MAX {
        n + 1
    } else {
        n
    }
}

impl FilterPipeline {
    /// A pipeline that is yet to be configured.
    pub fn new() -> (pipeline: FilterPipeline)
        ensures
            pipeline@ == PipelineView::initial(),
    {
        FilterPipeline {
            state: PipelineState::Configuring,
            set: IdentifierSet::new(),
            source: AlignmentSource { format: AlignmentFormat::Bam, reference: None },
            reader: FastqPairReader::open(false),
            router: OutputRouter::idle(),
            summary: Summary {
                alignments_seen: 0,
                alignments_matched: 0,
                pairs_seen: 0,
                pairs_matched: 0,
            },
        }
    }

    /// Sets the run up from its configuration, the content of the list file
    /// and the sequence names of the reference, where one was loaded.
    /// Reports why the run cannot start, if it cannot.
    pub fn configure(&mut self, config: &Config, list: &[u8], reference: Option<FastaIndex>) -> (outcome:
        Result<(), FilterError>)
        ensures
            final(self)@ == old(self)@.configured(*config, list@, optional_index(reference)),
            outcome == verdict(final(self)@.state),
    {
        match self.state {
            PipelineState::Configuring => {},
            PipelineState::Failed(e) => {
                return Err(e);
            },
            _ => {
                return Ok(());
            },
        }
        let broken = match config.check() {
            Err(e) => Some(e),
            Ok(_) => if config.list.is_none() {
                Some(FilterError::File(FileRole::List))
            } else if config.cram.is_some() && reference.is_none() {
                Some(FilterError::MissingReference)
            } else {
                None
            },
        };
        match broken {
            Some(e) => {
                self.state = PipelineState::Failed(e);
                Err(e)
            },
            None => {
                let format = if config.cram.is_some() {
                    AlignmentFormat::Cram
                } else {
                    AlignmentFormat::Bam
                };
                match OutputRouter::configure(config) {
                    Ok(router) => {
                        self.router = router;
                        self.set = IdentifierSet::load(list);
                        self.source = AlignmentSource { format, reference };
                        self.reader = FastqPairReader::open(config.fastq2.is_some());
                        self.state = PipelineState::Streaming;
                        Ok(())
                    },
                    Err(e) => {
                        self.state = PipelineState::Failed(e);
                        Err(e)
                    },
                }
            },
        }
    }

    /// Where the run stands.
    pub fn state(&self) -> (state: PipelineState)
        ensures
            state == self@.state,
    {
        self.state
    }

    /// The exit code that the process owes: 0 once the run is completed,
    /// and 1 as long as it is not.
    pub fn exit_code(&self) -> (code: u8)
        ensures
            code == exit_code_of(self@.state),
    {
        match self.state {
            PipelineState::Completed => 0,
            _ => 1,
        }
    }

    /// The counts of the run so far.
    pub fn summary(&self) -> (summary: Summary)
        ensures
            summary == self@.summary,
    {
        self.summary
    }

    /// The output side of the run.
    pub fn router(&self) -> (router: &OutputRouter)
        ensures
            router@ == self@.router,
    {
        &self.router
    }

    /// The identifiers that the run keeps.
    pub fn identifiers(&self) -> (set: &IdentifierSet)
        ensures
            set@ == self@.set,
    {
        &self.set
    }

    /// Takes the next record of the alignment file.
    pub fn on_alignment(&mut self, record: &AlignmentRecord) -> (outcome: Result<
        Option<Vec<u8>>,
        FilterError,
    >)
        ensures
            (final(self)@, text_outcome(outcome)) == old(self)@.alignment_step(record@),
    {
        match self.state {
            PipelineState::Streaming => {},
            PipelineState::Failed(e) => {
                return Err(e);
            },
            _ => {
                return Ok(None);
            },
        }
        match self.source.vet(record) {
            Err(e) => {
                self.state = PipelineState::Failed(e);
                Err(e)
            },
            Ok(_) => {
                self.summary.alignments_seen = bump(self.summary.alignments_seen);
                if crate::matcher::matches(record.id.as_slice(), &self.set) {
                    self.summary.alignments_matched = bump(self.summary.alignments_matched);
                    Ok(self.router.write_alignment(record))
                } else {
                    Ok(None)
                }
            },
        }
    }

    /// Takes what each FASTQ stream gave at this step: a record, or nothing
    /// at its end.
    pub fn on_reads(&mut self, first: Option<FastqRecord>, second: Option<FastqRecord>) -> (outcome:
        Result<Option<PairText>, FilterError>)
        ensures
            (final(self)@, pair_outcome(outcome)) == old(self)@.reads_step(
                optional_record(first),
                optional_record(second),
            ),
    {
        match self.state {
            PipelineState::Streaming => {},
            PipelineState::Failed(e) => {
                return Err(e);
            },
            _ => {
                return Ok(None);
            },
        }
        match self.reader.next(first, second) {
            Err(e) => {
                self.state = PipelineState::Failed(e);
                Err(e)
            },
            Ok(None) => Ok(None),
            Ok(Some(pair)) => {
                self.summary.pairs_seen = bump(self.summary.pairs_seen);
                if crate::matcher::matches(pair.first.id.as_slice(), &self.set) {
                    self.summary.pairs_matched = bump(self.summary.pairs_matched);
                    Ok(self.router.write_read_pair(&pair))
                } else {
                    Ok(None)
                }
            },
        }
    }

    /// Takes a fatal error that the caller met: a file that cannot be read,
    /// bytes that are no record.
    pub fn fail(&mut self, error: FilterError)
        ensures
            final(self)@ == old(self)@.faulted(error),
    {
        match self.state {
            PipelineState::Completed => {},
            PipelineState::Failed(_) => {},
            _ => {
                self.state = PipelineState::Failed(error);
            },
        }
    }

    /// Takes the end of all input and closes the router. Gives the text of
    /// the manifest, which the caller writes once the filtered files are
    /// closed.
    pub fn finish(&mut self) -> (outcome: Result<Option<Vec<u8>>, FilterError>)
        ensures
            (final(self)@, text_outcome(outcome)) == old(self)@.finished(),
    {
        match self.state {
            PipelineState::Streaming => {
                self.state = PipelineState::Finalizing;
                Ok(self.router.finalize())
            },
            PipelineState::Failed(e) => Err(e),
            _ => Ok(None),
        }
    }

    /// Takes the news that every output is closed.
    pub fn complete(&mut self)
        ensures
            final(self)@ == old(self)@.completed(),
    {
        match self.state {
            PipelineState::Finalizing => {
                self.state = PipelineState::Completed;
            },
            _ => {},
        }
    }
}

} // verus!
