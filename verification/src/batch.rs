//! A whole run over records that are already in memory.
//!
//! [`run`] drives a pipeline from configuration to completion and gathers
//! the text of every output. What it gives is stated by [`ran`], over the
//! content of its inputs alone.

use vstd::prelude::*;
use crate::bytes::append;
use crate::cli::Config;
use crate::error::{FilterError, PairingError};
use crate::identifier::{listed, normalized};
use crate::matcher::keeps;
use crate::pairing::{pairing_fault, step_after, FastqPairReader};
use crate::pipeline::{
    format_of,
    setup_error,
    FilterPipeline,
    PipelineState,
    PipelineView,
    Summary,
};
use crate::record::{
    optional_bytes,
    AlignmentRecord,
    AlignmentView,
    FastqRecord,
    FastqView,
    PairView,
};
use crate::router::{manifest_text, routed, RouterView};
use crate::source::{optional_index, FastaIndex, SourceView};

verus! {

/// What a vector of alignment records holds.
pub open spec fn alignment_views(records: Seq<AlignmentRecord>) -> Seq<AlignmentView> {
    Seq::new(records.len(), |i: int| records[i]@)
}

/// What a vector of FASTQ records holds.
pub open spec fn fastq_views(records: Seq<FastqRecord>) -> Seq<FastqView> {
    Seq::new(records.len(), |i: int| records[i]@)
}

/// The rule by which an alignment record is kept, as a predicate.
pub open spec fn keeper(set: Set<Seq<u8>>) -> spec_fn(AlignmentView) -> bool {
    |r: AlignmentView| keeps(set, r.id)
}

/// The rule by which a read pair is kept, as a predicate: by the name of
/// its forward read.
pub open spec fn pair_keeper(set: Set<Seq<u8>>) -> spec_fn(PairView) -> bool {
    |p: PairView| keeps(set, p.first.id)
}

/// The alignment records that are kept, in their order.
pub open spec fn kept_alignments(set: Set<Seq<u8>>, records: Seq<AlignmentView>) -> Seq<
    AlignmentView,
> {
    records.filter(keeper(set))
}

/// The read pairs that are kept, in their order.
pub open spec fn kept_pairs(set: Set<Seq<u8>>, pairs: Seq<PairView>) -> Seq<PairView> {
    pairs.filter(pair_keeper(set))
}

/// What a stream gives at step `k`, counted from 0: its record, or nothing
/// once it has ended.
pub open spec fn stream_item(stream: Seq<FastqView>, k: int) -> Option<FastqView> {
    if 0 <= k < stream.len() {
        Some(stream[k])
    } else {
        None
    }
}

/// The number of steps that two streams take together.
pub open spec fn steps(first: Seq<FastqView>, second: Seq<FastqView>) -> int {
    if first.len() >= second.len() {
        first.len() as int
    } else {
        second.len() as int
    }
}

/// The first pairing error from step `k` on, counted from 0, if there is
/// one. It names the step counted from 1.
pub open spec fn first_fault(
    paired: bool,
    first: Seq<FastqView>,
    second: Seq<FastqView>,
    k: int,
) -> Option<PairingError>
    decreases steps(first, second) - k,
{
    if k < 0 || k >= steps(first, second) {
        None
    } else {
        match pairing_fault(paired, stream_item(first, k), stream_item(second, k)) {
            Some(fault) => Some(PairingError { step: (k + 1) as u64, fault }),
            None => first_fault(paired, first, second, k + 1),
        }
    }
}

/// The forward reads, each with what the reverse stream gives at its step.
pub open spec fn paired_up(first: Seq<FastqView>, second: Seq<FastqView>) -> Seq<PairView> {
    Seq::new(first.len(), |k: int| PairView { first: first[k], second: stream_item(second, k) })
}

/// The forward reads of some pairs.
pub open spec fn forward_reads(pairs: Seq<PairView>) -> Seq<FastqView> {
    Seq::new(pairs.len(), |k: int| pairs[k].first)
}

/// The reverse reads of the pairs that have one.
pub open spec fn reverse_reads(pairs: Seq<PairView>) -> Seq<FastqView>
    decreases pairs.len(),
{
    if pairs.len() == 0 {
        Seq::empty()
    } else {
        match pairs.last().second {
            Some(mate) => reverse_reads(pairs.drop_last()).push(mate),
            None => reverse_reads(pairs.drop_last()),
        }
    }
}

/// Some alignment records as FASTA text, one behind the other.
pub open spec fn fasta_text(records: Seq<AlignmentView>) -> Seq<u8>
    decreases records.len(),
{
    if records.len() == 0 {
        Seq::empty()
    } else {
        fasta_text(records.drop_last()) + records.last().fasta()
    }
}

/// Some FASTQ records as FASTQ text, one behind the other.
pub open spec fn fastq_text(records: Seq<FastqView>) -> Seq<u8>
    decreases records.len(),
{
    if records.len() == 0 {
        Seq::empty()
    } else {
        fastq_text(records.drop_last()) + records.last().fastq()
    }
}

/// The normalized names of some alignment records.
pub open spec fn alignment_ids(records: Seq<AlignmentView>) -> Seq<Seq<u8>> {
    Seq::new(records.len(), |i: int| normalized(records[i].id))
}

/// The normalized names of some read pairs, each the name of its forward
/// read.
pub open spec fn pair_ids(pairs: Seq<PairView>) -> Seq<Seq<u8>> {
    Seq::new(pairs.len(), |i: int| normalized(pairs[i].first.id))
}

/// The alignment records that a run writes to its FASTA file.
pub open spec fn written_alignments(
    config: Config,
    set: Set<Seq<u8>>,
    alignments: Seq<AlignmentView>,
) -> Seq<AlignmentView> {
    if config.fasta_out {
        kept_alignments(set, alignments)
    } else {
        Seq::empty()
    }
}

/// The read pairs that a run writes to its FASTQ files.
pub open spec fn written_pairs(
    config: Config,
    set: Set<Seq<u8>>,
    first: Seq<FastqView>,
    second: Seq<FastqView>,
) -> Seq<PairView> {
    if config.fastq_out {
        kept_pairs(set, paired_up(first, second))
    } else {
        Seq::empty()
    }
}

/// The identifiers on the manifest of a run: the names of the alignment
/// records written, then those of the read pairs written.
pub open spec fn manifest_ids(
    config: Config,
    set: Set<Seq<u8>>,
    alignments: Seq<AlignmentView>,
    first: Seq<FastqView>,
    second: Seq<FastqView>,
) -> Seq<Seq<u8>> {
    alignment_ids(written_alignments(config, set, alignments)) + pair_ids(
        written_pairs(config, set, first, second),
    )
}

/// A count as the summary holds it.
pub open spec fn capped(n: nat) -> u64 {
    if n < u64::MAX {
        n as u64
    } else {
        u64::MAX
    }
}

/// The text of every output of a finished run, and its counts.
#[derive(Clone, Debug, PartialEq, Eq)]
pub struct Outputs {
    /// The filtered FASTA file, where one is written.
    pub fasta: Option<Vec<u8>>,
    /// The filtered forward-read file, where one is written.
    pub fastq1: Option<Vec<u8>>,
    /// The filtered reverse-read file, where one is written.
    pub fastq2: Option<Vec<u8>>,
    /// The manifest, where one is written.
    pub manifest: Option<Vec<u8>>,
    /// The counts of the run.
    pub summary: Summary,
}

/// What the outputs of a run hold.
pub struct OutputsView {
    pub fasta: Option<Seq<u8>>,
    pub fastq1: Option<Seq<u8>>,
    pub fastq2: Option<Seq<u8>>,
    pub manifest: Option<Seq<u8>>,
    pub summary: Summary,
}

impl View for Outputs {
    type V = OutputsView;

    open spec fn view(&self) -> OutputsView {
        OutputsView {
            fasta: optional_bytes(self.fasta),
            fastq1: optional_bytes(self.fastq1),
            fastq2: optional_bytes(self.fastq2),
            manifest: optional_bytes(self.manifest),
            summary: self.summary,
        }
    }
}

/// What the outcome of a run holds.
pub open spec fn run_outcome(outcome: Result<Outputs, FilterError>) -> Result<
    OutputsView,
    FilterError,
> {
    match outcome {
        Ok(outputs) => Ok(outputs@),
        Err(e) => Err(e),
    }
}

/// Whether the reference allows every one of the records.
pub open spec fn all_allowed(source: SourceView, alignments: Seq<AlignmentView>) -> bool {
    forall|i: int| 0 <= i < alignments.len() ==> source.allows(#[trigger] alignments[i])
}

/// What a run gives.
///
/// It fails where it cannot start; else with a reference mismatch where the
/// reference does not allow some alignment record; else with the first
/// pairing error of the FASTQ streams. Otherwise each output that the
/// configuration asks for holds the kept records in the order of the input,
/// the manifest names what was written, alignment records first, and the
/// summary counts what was seen and what the list names.
pub open spec fn ran(
    config: Config,
    list: Seq<u8>,
    reference: Option<Seq<Seq<u8>>>,
    alignments: Seq<AlignmentView>,
    first: Seq<FastqView>,
    second: Seq<FastqView>,
) -> Result<OutputsView, FilterError> {
    let set = listed(list);
    let source = SourceView { format: format_of(config), reference };
    let paired = config.fastq2 is Some;
    let pairs = kept_pairs(set, paired_up(first, second));
    if setup_error(config, reference) is Some {
        Err(setup_error(config, reference)->0)
    } else if !all_allowed(source, alignments) {
        Err(FilterError::ReferenceMismatch)
    } else if first_fault(paired, first, second, 0) is Some {
        Err(FilterError::Pairing(first_fault(paired, first, second, 0)->0))
    } else {
        Ok(
            OutputsView {
                fasta: if config.fasta_out {
                    Some(fasta_text(kept_alignments(set, alignments)))
                } else {
                    None
                },
                fastq1: if config.fastq_out {
                    Some(fastq_text(forward_reads(pairs)))
                } else {
                    None
                },
                fastq2: if config.fastq_out && paired {
                    Some(fastq_text(reverse_reads(pairs)))
                } else {
                    None
                },
                manifest: if config.read_list is Some {
                    Some(manifest_text(manifest_ids(config, set, alignments, first, second)))
                } else {
                    None
                },
                summary: Summary {
                    alignments_seen: capped(alignments.len()),
                    alignments_matched: capped(kept_alignments(set, alignments).len()),
                    pairs_seen: capped(first.len()),
                    pairs_matched: capped(pairs.len()),
                },
            },
        )
    }
}

/// A streaming pipeline for `config` with the given manifest, place in the
/// FASTQ streams and counts.
spec fn streaming(
    config: Config,
    list: Seq<u8>,
    reference: Option<Seq<Seq<u8>>>,
    manifest: Seq<Seq<u8>>,
    delivered: u64,
    summary: Summary,
) -> PipelineView {
    PipelineView {
        state: PipelineState::Streaming,
        set: listed(list),
        source: SourceView { format: format_of(config), reference },
        reader: FastqPairReader { paired: config.fastq2 is Some, delivered },
        router: RouterView {
            fasta: routed(config).fasta,
            fastq1: routed(config).fastq1,
            fastq2: routed(config).fastq2,
            read_list: routed(config).read_list,
            manifest,
            closed: false,
        },
        summary,
    }
}

/// The read pairs, out of `pairs`, that a run writes to its FASTQ files.
spec fn written_pairs_of(config: Config, set: Set<Seq<u8>>, pairs: Seq<PairView>) -> Seq<PairView> {
    if config.fastq_out {
        kept_pairs(set, pairs)
    } else {
        Seq::empty()
    }
}

/// The manifest that the router keeps: the identifiers, where a file for
/// them was asked for.
spec fn journal(config: Config, ids: Seq<Seq<u8>>) -> Seq<Seq<u8>> {
    if config.read_list is Some {
        ids
    } else {
        Seq::empty()
    }
}

/// The text that a channel has gathered: the text of what was written,
/// where the channel is open.
spec fn gathered(open: bool, text: Seq<u8>) -> Seq<u8> {
    if open {
        text
    } else {
        Seq::empty()
    }
}

/// What is kept of one more record: the record too, where the list names it.
proof fn lemma_kept_alignments_step(set: Set<Seq<u8>>, records: Seq<AlignmentView>, i: int)
    requires
        0 <= i < records.len(),
    ensures
        kept_alignments(set, records.take(i + 1)) == if keeps(set, records[i].id) {
            kept_alignments(set, records.take(i)).push(records[i])
        } else {
            kept_alignments(set, records.take(i))
        },
{
    assert(records.take(i + 1) =~= records.take(i).push(records[i]));
    records.take(i).lemma_filter_push(records[i], keeper(set));
}

/// What is kept of one more pair: the pair too, where the list names it.
proof fn lemma_kept_pairs_step(set: Set<Seq<u8>>, pairs: Seq<PairView>, i: int)
    requires
        0 <= i < pairs.len(),
    ensures
        kept_pairs(set, pairs.take(i + 1)) == if keeps(set, pairs[i].first.id) {
            kept_pairs(set, pairs.take(i)).push(pairs[i])
        } else {
            kept_pairs(set, pairs.take(i))
        },
{
    assert(pairs.take(i + 1) =~= pairs.take(i).push(pairs[i]));
    pairs.take(i).lemma_filter_push(pairs[i], pair_keeper(set));
}

/// The text of one more record is put behind the text of the others.
proof fn lemma_fasta_text_push(records: Seq<AlignmentView>, r: AlignmentView)
    ensures
        fasta_text(records.push(r)) == fasta_text(records) + r.fasta(),
{
    assert(records.push(r).drop_last() =~= records);
}

/// The text of one more read is put behind the text of the others.
proof fn lemma_fastq_text_push(records: Seq<FastqView>, r: FastqView)
    ensures
        fastq_text(records.push(r)) == fastq_text(records) + r.fastq(),
{
    assert(records.push(r).drop_last() =~= records);
}

/// The reads and the name of one more pair are put behind those of the others.
proof fn lemma_reads_push(pairs: Seq<PairView>, p: PairView)
    ensures
        forward_reads(pairs.push(p)) == forward_reads(pairs).push(p.first),
        reverse_reads(pairs.push(p)) == match p.second {
            Some(mate) => reverse_reads(pairs).push(mate),
            None => reverse_reads(pairs),
        },
        pair_ids(pairs.push(p)) == pair_ids(pairs).push(normalized(p.first.id)),
{
    assert(pairs.push(p).drop_last() =~= pairs);
    assert(forward_reads(pairs.push(p)) =~= forward_reads(pairs).push(p.first));
    assert(pair_ids(pairs.push(p)) =~= pair_ids(pairs).push(normalized(p.first.id)));
}

/// The name of one more record is put behind the names of the others.
proof fn lemma_alignment_ids_push(records: Seq<AlignmentView>, r: AlignmentView)
    ensures
        alignment_ids(records.push(r)) == alignment_ids(records).push(normalized(r.id)),
{
    assert(alignment_ids(records.push(r)) =~= alignment_ids(records).push(normalized(r.id)));
}

/// Of no records none is kept.
proof fn lemma_kept_nothing(set: Set<Seq<u8>>)
    ensures
        kept_alignments(set, Seq::empty()) == Seq::<AlignmentView>::empty(),
        kept_pairs(set, Seq::empty()) == Seq::<PairView>::empty(),
{
    Seq::<AlignmentView>::empty().lemma_filter_len(keeper(set));
    Seq::<PairView>::empty().lemma_filter_len(pair_keeper(set));
    assert(kept_alignments(set, Seq::empty()) =~= Seq::<AlignmentView>::empty());
    assert(kept_pairs(set, Seq::empty()) =~= Seq::<PairView>::empty());
}

/// Counting one more and capping come to the same in either order.
proof fn lemma_capped_step(n: nat)
    ensures
        step_after(capped(n)) == capped(n + 1),
{
}

/// Runs the filter over records in memory: the content of the list file,
/// the sequence names of the reference where one was loaded, the records of
/// the alignment file, and the records of the forward and reverse FASTQ
/// files (an empty vector for a file that was not named).
#[verifier::loop_isolation(false)]
pub fn run(
    config: &Config,
    list: &[u8],
    reference: Option<FastaIndex>,
    alignments: &Vec<AlignmentRecord>,
    first: &Vec<FastqRecord>,
    second: &Vec<FastqRecord>,
) -> (outcome: Result<Outputs, FilterError>)
    ensures
        run_outcome(outcome) == ran(
            *config,
            list@,
            optional_index(reference),
            alignment_views(alignments@),
            fastq_views(first@),
            fastq_views(second@),
        ),
{
    let ghost index = optional_index(reference);
    let ghost set = listed(list@);
    let ghost source = SourceView { format: format_of(*config), reference: index };
    let ghost records = alignment_views(alignments@);
    let ghost forward = fastq_views(first@);
    let ghost reverse = fastq_views(second@);
    let ghost paired = config.fastq2 is Some;
    let ghost zero = Summary {
        alignments_seen: 0,
        alignments_matched: 0,
        pairs_seen: 0,
        pairs_matched: 0,
    };
    let mut pipeline = FilterPipeline::new();
    match pipeline.configure(config, list, reference) {
        Err(e) => {
            return Err(e);
        },
        Ok(_) => {},
    }
    assert(pipeline@ == streaming(*config, list@, index, Seq::empty(), 0, zero));
    let mut fasta: Vec<u8> = Vec::new();
    let mut i: usize = 0;
    proof {
        lemma_kept_nothing(set);
        assert(records.take(0) =~= Seq::empty());
        assert(alignment_ids(Seq::empty()) =~= Seq::empty());
        assert(fasta_text(Seq::empty()) =~= Seq::empty());
    }
    while i < alignments.len()
        invariant
            i <= alignments@.len(),
            records == alignment_views(alignments@),
            set == listed(list@),
            source == (SourceView { format: format_of(*config), reference: index }),
            setup_error(*config, index) is None,
            forall|j: int| 0 <= j < i ==> source.allows(#[trigger] records[j]),
            fasta@ == gathered(config.fasta_out, fasta_text(kept_alignments(set, records.take(i as int)))),
            pipeline@ == streaming(
                *config,
                list@,
                index,
                journal(
                    *config,
                    alignment_ids(written_alignments(*config, set, records.take(i as int))),
                ),
                0,
                Summary {
                    alignments_seen: capped(i as nat),
                    alignments_matched: capped(kept_alignments(set, records.take(i as int)).len()),
                    pairs_seen: 0,
                    pairs_matched: 0,
                },
            ),
        decreases alignments@.len() - i,
    {
        let ghost before = kept_alignments(set, records.take(i as int));
        proof {
            lemma_kept_alignments_step(set, records, i as int);
            lemma_fasta_text_push(before, records[i as int]);
            lemma_alignment_ids_push(before, records[i as int]);
            lemma_capped_step(i as nat);
            lemma_capped_step(before.len());
        }
        match pipeline.on_alignment(&alignments[i]) {
            Err(e) => {
                assert(!source.allows(records[i as int]));
                assert(!all_allowed(source, records));
                return Err(e);
            },
            Ok(Some(text)) => {
                append(&mut fasta, text.as_slice());
            },
            Ok(None) => {},
        }
        i += 1;
    }
    assert(records.take(i as int) =~= records);
    let ghost kept = kept_alignments(set, records);
    let ghost logged = journal(*config, alignment_ids(written_alignments(*config, set, records)));
    let ghost pairs = paired_up(forward, reverse);
    let mut fastq1: Vec<u8> = Vec::new();
    let mut fastq2: Vec<u8> = Vec::new();
    let total: usize = if first.len() >= second.len() {
        first.len()
    } else {
        second.len()
    };
    let mut k: usize = 0;
    proof {
        assert(pairs.take(0) =~= Seq::empty());
        assert(pair_ids(Seq::empty()) =~= Seq::empty());
        assert(forward_reads(Seq::empty()) =~= Seq::empty());
        assert(logged + journal(*config, pair_ids(written_pairs_of(*config, set, pairs.take(0))))
            =~= logged);
    }
    while k < total
        invariant
            k <= total,
            k <= first@.len(),
            total == steps(forward, reverse),
            forward == fastq_views(first@),
            reverse == fastq_views(second@),
            pairs == paired_up(forward, reverse),
            set == listed(list@),
            paired == (config.fastq2 is Some),
            setup_error(*config, index) is None,
            first_fault(paired, forward, reverse, 0) == first_fault(paired, forward, reverse, k as int),
            fastq1@ == gathered(
                config.fastq_out,
                fastq_text(forward_reads(kept_pairs(set, pairs.take(k as int)))),
            ),
            fastq2@ == gathered(
                config.fastq_out && paired,
                fastq_text(reverse_reads(kept_pairs(set, pairs.take(k as int)))),
            ),
            pipeline@ == streaming(
                *config,
                list@,
                index,
                logged + journal(
                    *config,
                    pair_ids(written_pairs_of(*config, set, pairs.take(k as int))),
                ),
                k as u64,
                Summary {
                    alignments_seen: capped(records.len()),
                    alignments_matched: capped(kept.len()),
                    pairs_seen: capped(k as nat),
                    pairs_matched: capped(kept_pairs(set, pairs.take(k as int)).len()),
                },
            ),
        decreases total - k,
    {
        let a = if k < first.len() {
            Some(first[k].duplicate())
        } else {
            None
        };
        let b = if k < second.len() {
            Some(second[k].duplicate())
        } else {
            None
        };
        let ghost before = kept_pairs(set, pairs.take(k as int));
        proof {
            if k < first@.len() {
                lemma_kept_pairs_step(set, pairs, k as int);
                lemma_reads_push(before, pairs[k as int]);
                lemma_fastq_text_push(forward_reads(before), pairs[k as int].first);
                match pairs[k as int].second {
                    Some(mate) => {
                        lemma_fastq_text_push(reverse_reads(before), mate);
                    },
                    None => {},
                }
            }
            lemma_capped_step(k as nat);
            lemma_capped_step(before.len());
            if k < first@.len() && config.read_list is Some {
                assert(logged + pair_ids(before).push(normalized(forward[k as int].id)) =~= (logged
                    + pair_ids(before)).push(normalized(forward[k as int].id)));
            }
        }
        match pipeline.on_reads(a, b) {
            Err(e) => {
                return Err(e);
            },
            Ok(Some(text)) => {
                append(&mut fastq1, text.first.as_slice());
                match text.second {
                    Some(mate) => {
                        append(&mut fastq2, mate.as_slice());
                    },
                    None => {},
                }
            },
            Ok(None) => {},
        }
        k += 1;
    }
    assert(pairs.take(k as int) =~= pairs);
    let manifest = match pipeline.finish() {
        Err(e) => {
            return Err(e);
        },
        Ok(text) => text,
    };
    pipeline.complete();
    let summary = pipeline.summary();
    Ok(
        Outputs {
            fasta: if config.fasta_out {
                Some(fasta)
            } else {
                None
            },
            fastq1: if config.fastq_out {
                Some(fastq1)
            } else {
                None
            },
            fastq2: if config.fastq_out && config.fastq2.is_some() {
                Some(fastq2)
            } else {
                None
            },
            manifest,
            summary,
        },
    )
}

} // verus!
