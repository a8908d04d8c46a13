//! What holds of every run.

use vstd::prelude::*;
use crate::batch::{
    alignment_ids,
    first_fault,
    forward_reads,
    keeper,
    kept_alignments,
    kept_pairs,
    manifest_ids,
    pair_keeper,
    paired_up,
    ran,
    reverse_reads,
    steps,
    stream_item,
    written_alignments,
    written_pairs,
    OutputsView,
};
use crate::cli::Config;
use crate::error::FilterError;
use crate::identifier::{listed, lists, normalized, DOT, ONE, SLASH, TWO};
use crate::matcher::keeps;
use crate::pairing::pairing_fault;
use crate::pipeline::{PipelineState, PipelineView};
use crate::record::{AlignmentView, FastqView, PairView};
use crate::router::{OutputFile, RouterView};

verus! {

/// A name and its mates are kept or dropped together: a mate's name, which
/// is the name with `/1`, `/2`, `.1` or `.2` behind it, is kept exactly when
/// the set holds the name.
pub proof fn lemma_mates_are_kept_together(
    set: Set<Seq<u8>>,
    name: Seq<u8>,
    separator: u8,
    mate: u8,
)
    requires
        name.len() > 0,
        separator == SLASH || separator == DOT,
        mate == ONE || mate == TWO,
    ensures
        normalized(name + seq![separator, mate]) == name,
        keeps(set, name + seq![separator, mate]) == set.contains(name),
{
    let spelled = name + seq![separator, mate];
    assert(spelled.subrange(0, spelled.len() - 2) =~= name);
}

/// Every alignment record that is kept is a record of the input, and a line
/// of the list names it. So the names of the kept records, normalized, are
/// among the identifiers of the list and among the normalized names of the
/// input.
pub proof fn lemma_kept_alignments_within_inputs(list: Seq<u8>, alignments: Seq<AlignmentView>)
    ensures
        forall|i: int|
            0 <= i < kept_alignments(listed(list), alignments).len() ==> {
                let record = #[trigger] kept_alignments(listed(list), alignments)[i];
                alignments.contains(record) && lists(list, normalized(record.id))
            },
        alignment_ids(kept_alignments(listed(list), alignments)).to_set().subset_of(listed(list)),
        alignment_ids(kept_alignments(listed(list), alignments)).to_set().subset_of(
            alignment_ids(alignments).to_set(),
        ),
{
    let set = listed(list);
    let kept = kept_alignments(set, alignments);
    let ids = alignment_ids(kept);
    assert forall|i: int| 0 <= i < kept.len() implies alignments.contains(#[trigger] kept[i])
        && lists(list, normalized(kept[i].id)) by {
        alignments.lemma_filter_pred(keeper(set), i);
        assert(kept.contains(kept[i]));
        alignments.lemma_filter_contains_rev(keeper(set), kept[i]);
    }
    assert forall|id: Seq<u8>| ids.to_set().contains(id) implies set.contains(id)
        && alignment_ids(alignments).to_set().contains(id) by {
        let i = choose|i: int| 0 <= i < ids.len() && ids[i] == id;
        assert(alignments.contains(kept[i]));
        let j = choose|j: int| 0 <= j < alignments.len() && alignments[j] == kept[i];
        assert(alignment_ids(alignments)[j] == id);
    }
}

/// Every read pair that is kept is a pair of the input, and a line of the
/// list names its forward read.
pub proof fn lemma_kept_pairs_within_inputs(list: Seq<u8>, pairs: Seq<PairView>)
    ensures
        forall|i: int|
            0 <= i < kept_pairs(listed(list), pairs).len() ==> {
                let pair = #[trigger] kept_pairs(listed(list), pairs)[i];
                pairs.contains(pair) && lists(list, normalized(pair.first.id))
            },
{
    let set = listed(list);
    let kept = kept_pairs(set, pairs);
    assert forall|i: int| 0 <= i < kept.len() implies pairs.contains(#[trigger] kept[i]) && lists(
        list,
        normalized(kept[i].first.id),
    ) by {
        pairs.lemma_filter_pred(pair_keeper(set), i);
        assert(kept.contains(kept[i]));
        pairs.lemma_filter_contains_rev(pair_keeper(set), kept[i]);
    }
}

/// Filtering what a filter kept keeps all of it.
pub proof fn lemma_filtering_again_keeps_all(set: Set<Seq<u8>>, records: Seq<AlignmentView>)
    ensures
        kept_alignments(set, kept_alignments(set, records)) == kept_alignments(set, records),
    decreases records.len(),
{
    let kept = kept_alignments(set, records);
    if records.len() == 0 {
        records.lemma_filter_len(keeper(set));
        kept.lemma_filter_len(keeper(set));
        assert(kept_alignments(set, kept) =~= kept);
    } else {
        let rest = records.drop_last();
        let last = records.last();
        assert(records =~= rest.push(last));
        rest.lemma_filter_push(last, keeper(set));
        lemma_filtering_again_keeps_all(set, rest);
        if keeper(set)(last) {
            kept_alignments(set, rest).lemma_filter_push(last, keeper(set));
        }
    }
}

/// Two runs on the same inputs give the same outcome: the same error, or
/// outputs that are the same byte for byte.
pub proof fn lemma_runs_agree(
    config: Config,
    list: Seq<u8>,
    reference: Option<Seq<Seq<u8>>>,
    alignments: Seq<AlignmentView>,
    first: Seq<FastqView>,
    second: Seq<FastqView>,
    one: Result<OutputsView, FilterError>,
    other: Result<OutputsView, FilterError>,
)
    requires
        one == ran(config, list, reference, alignments, first, second),
        other == ran(config, list, reference, alignments, first, second),
    ensures
        one == other,
{
}

/// Where no step from `k` on is out of step, step `j` is not.
proof fn lemma_no_fault_at(
    paired: bool,
    first: Seq<FastqView>,
    second: Seq<FastqView>,
    k: int,
    j: int,
)
    requires
        0 <= k <= j < steps(first, second),
        first_fault(paired, first, second, k) is None,
    ensures
        pairing_fault(paired, stream_item(first, j), stream_item(second, j)) is None,
    decreases j - k,
{
    if k < j {
        lemma_no_fault_at(paired, first, second, k + 1, j);
    }
}

/// Where every pair has its mate, the reverse reads are the mates, one for
/// one.
proof fn lemma_reverse_reads_full(pairs: Seq<PairView>)
    requires
        forall|i: int| 0 <= i < pairs.len() ==> (#[trigger] pairs[i]).second is Some,
    ensures
        reverse_reads(pairs) == Seq::new(pairs.len(), |i: int| pairs[i].second->0),
    decreases pairs.len(),
{
    if pairs.len() > 0 {
        let rest = pairs.drop_last();
        assert forall|i: int| 0 <= i < rest.len() implies (#[trigger] rest[i]).second is Some by {
            assert(rest[i] == pairs[i]);
        }
        lemma_reverse_reads_full(rest);
        assert(pairs.last().second is Some);
    }
    assert(reverse_reads(pairs) =~= Seq::new(pairs.len(), |i: int| pairs[i].second->0));
}

/// In a run over two FASTQ streams that are in step, the forward reads and
/// the reverse reads that are kept are as many, and at each place the two
/// have the same normalized name.
pub proof fn lemma_kept_pairs_stay_in_step(
    set: Set<Seq<u8>>,
    first: Seq<FastqView>,
    second: Seq<FastqView>,
)
    requires
        first_fault(true, first, second, 0) is None,
    ensures
        first.len() == second.len(),
        forward_reads(kept_pairs(set, paired_up(first, second))).len() == reverse_reads(
            kept_pairs(set, paired_up(first, second)),
        ).len(),
        forall|i: int|
            0 <= i < kept_pairs(set, paired_up(first, second)).len() ==> normalized(
                (#[trigger] forward_reads(kept_pairs(set, paired_up(first, second)))[i]).id,
            ) == normalized(reverse_reads(kept_pairs(set, paired_up(first, second)))[i].id),
{
    let pairs = paired_up(first, second);
    let kept = kept_pairs(set, pairs);
    if first.len() < second.len() {
        lemma_no_fault_at(true, first, second, 0, first.len() as int);
    }
    if second.len() < first.len() {
        lemma_no_fault_at(true, first, second, 0, second.len() as int);
    }
    assert forall|k: int| 0 <= k < pairs.len() implies (#[trigger] pairs[k]).second is Some
        && normalized(pairs[k].first.id) == normalized(pairs[k].second->0.id) by {
        lemma_no_fault_at(true, first, second, 0, k);
    }
    assert forall|i: int| 0 <= i < kept.len() implies (#[trigger] kept[i]).second is Some
        && normalized(kept[i].first.id) == normalized(kept[i].second->0.id) by {
        assert(kept.contains(kept[i]));
        pairs.lemma_filter_contains_rev(pair_keeper(set), kept[i]);
        let k = choose|k: int| 0 <= k < pairs.len() && pairs[k] == kept[i];
        assert(pairs[k].second is Some);
    }
    lemma_reverse_reads_full(kept);
}

/// The manifest names an identifier exactly when a record with that
/// normalized name was written to the FASTA file, or a read pair with it was
/// written to the FASTQ files.
pub proof fn lemma_manifest_names_what_was_written(
    config: Config,
    set: Set<Seq<u8>>,
    alignments: Seq<AlignmentView>,
    first: Seq<FastqView>,
    second: Seq<FastqView>,
)
    ensures
        forall|id: Seq<u8>|
            manifest_ids(config, set, alignments, first, second).contains(id) <==> ((exists|i: int|
                0 <= i < written_alignments(config, set, alignments).len() && normalized(
                    (#[trigger] written_alignments(config, set, alignments)[i]).id,
                ) == id) || (exists|j: int|
                0 <= j < written_pairs(config, set, first, second).len() && normalized(
                    (#[trigger] written_pairs(config, set, first, second)[j]).first.id,
                ) == id)),
{
    let records = written_alignments(config, set, alignments);
    let pairs = written_pairs(config, set, first, second);
    let manifest = manifest_ids(config, set, alignments, first, second);
    assert forall|id: Seq<u8>| manifest.contains(id) <==> ((exists|i: int|
        0 <= i < records.len() && normalized((#[trigger] records[i]).id) == id) || (exists|j: int|
        0 <= j < pairs.len() && normalized((#[trigger] pairs[j]).first.id) == id)) by {
        if manifest.contains(id) {
            let m = choose|m: int| 0 <= m < manifest.len() && manifest[m] == id;
            if m < records.len() {
                assert(normalized(records[m].id) == id);
            } else {
                assert(normalized(pairs[m - records.len()].first.id) == id);
            }
        }
        if exists|i: int| 0 <= i < records.len() && normalized((#[trigger] records[i]).id) == id {
            let i = choose|i: int|
                0 <= i < records.len() && normalized((#[trigger] records[i]).id) == id;
            assert(manifest[i] == id);
        }
        if exists|j: int| 0 <= j < pairs.len() && normalized((#[trigger] pairs[j]).first.id) == id {
            let j = choose|j: int|
                0 <= j < pairs.len() && normalized((#[trigger] pairs[j]).first.id) == id;
            assert(manifest[records.len() + j] == id);
        }
    }
}

/// Whatever is handed to a router, its manifest only grows: what was on it
/// stays on it, in its place.
pub proof fn lemma_manifest_only_grows(
    router: RouterView,
    record: AlignmentView,
    pair: PairView,
    id: Seq<u8>,
)
    ensures
        router.manifest.is_prefix_of(router.alignment_written(record).0.manifest),
        router.manifest.is_prefix_of(router.pair_written(pair).0.manifest),
        router.manifest.is_prefix_of(router.logged(id).manifest),
        router.finalized().0.manifest == router.manifest,
{
}

/// The manifest is closed after every filtered file: where it is written,
/// it comes last in the closing order and nowhere else.
pub proof fn lemma_manifest_is_closed_last(router: RouterView)
    ensures
        forall|i: int|
            0 <= i < router.closing_order().len() && #[trigger] router.closing_order()[i]
                == OutputFile::Manifest ==> i == router.closing_order().len() - 1,
        router.read_list is Some ==> router.closing_order().len() > 0
            && router.closing_order().last() == OutputFile::Manifest,
{
}

/// A failed run stays failed with the error that failed it, whatever comes
/// after: no record is taken, the router is not closed, and every call
/// reports that error.
pub proof fn lemma_failed_run_stays_failed(
    run: PipelineView,
    error: FilterError,
    config: Config,
    list: Seq<u8>,
    reference: Option<Seq<Seq<u8>>>,
    record: AlignmentView,
    first: Option<FastqView>,
    second: Option<FastqView>,
    later: FilterError,
)
    requires
        run.state == PipelineState::Failed(error),
    ensures
        run.configured(config, list, reference) == run,
        run.alignment_step(record) == (run, Err::<Option<Seq<u8>>, FilterError>(error)),
        run.reads_step(first, second).0 == run,
        run.reads_step(first, second).1 is Err,
        run.reads_step(first, second).1->Err_0 == error,
        run.faulted(later) == run,
        run.finished() == (run, Err::<Option<Seq<u8>>, FilterError>(error)),
        run.completed() == run,
{
}

/// A run fails or completes only by the steps that lead there: it streams
/// only once configured, finalizes only from streaming, and completes only
/// from finalizing.
pub proof fn lemma_states_follow_in_order(
    run: PipelineView,
    config: Config,
    list: Seq<u8>,
    reference: Option<Seq<Seq<u8>>>,
    record: AlignmentView,
    first: Option<FastqView>,
    second: Option<FastqView>,
)
    ensures
        run.configured(config, list, reference).state == PipelineState::Streaming ==> run.state
            == PipelineState::Configuring || run.state == PipelineState::Streaming,
        run.alignment_step(record).0.state == PipelineState::Streaming ==> run.state
            == PipelineState::Streaming,
        run.reads_step(first, second).0.state == PipelineState::Streaming ==> run.state
            == PipelineState::Streaming,
        run.finished().0.state == PipelineState::Finalizing ==> run.state
            == PipelineState::Streaming || run.state == PipelineState::Finalizing,
        run.completed().state == PipelineState::Completed ==> run.state
            == PipelineState::Finalizing || run.state == PipelineState::Completed,
        run.state == PipelineState::Completed ==> run.alignment_step(record).0 == run
            && run.reads_step(first, second).0 == run && run.finished().0 == run,
{
}

} // verus!
