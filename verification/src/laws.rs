//! Cross-cutting laws of the aggregation engine, each proved from the
//! contracts of the functions it relates.
use vstd::prelude::*;
use crate::models::ParsedMessage;
use crate::pipeline::{channel_counts, is_top_channels, ChannelTally, zeros24};
use crate::models::TopChannel;
use crate::pipeline::{aggregates_witness, channel_aggregates, dm_counts, DmTally};
use crate::models::ExtractedData;
use crate::rank::{is_stable_desc_order, is_top_selection, lemma_top_selection_complete, outranks};
use crate::stats::{
    count_parseable, fold_hist, int_sum, lemma_fold_hist_sum, lemma_sat_fold_sum, lemma_sum_zeros,
    sat_fold, sum_buckets,
};

verus! {

/// A top selection reports the `limit` largest counts: it has length
/// `min(limit, N)`, is sorted descending, breaks ties by first position,
/// and no count left out exceeds any count kept.
pub proof fn lemma_top_selection_law(counts: Seq<usize>, top: Seq<usize>, limit: int)
    requires
        is_top_selection(counts, top, limit),
        0 <= limit,
    ensures
        top.len() == if limit < counts.len() {
            limit
        } else {
            counts.len() as int
        },
        forall|i: int, j: int|
            0 <= i < j < top.len() ==> counts[#[trigger] top[i] as int] >= counts[#[trigger] top[j] as int],
        forall|i: int, j: int|
            0 <= i < j < top.len() && counts[#[trigger] top[i] as int] == counts[#[trigger] top[j] as int]
                ==> top[i] < top[j],
        forall|k: int, out: int|
            #![trigger counts[top[k] as int], counts[out]]
            0 <= k < top.len() && 0 <= out < counts.len() && (forall|i: int|
                0 <= i < top.len() ==> (#[trigger] top[i]) != out) ==> counts[out]
                <= counts[top[k] as int],
{
    let ord = choose|ord: Seq<usize>|
        #[trigger] is_stable_desc_order(counts, ord) && top == ord.take(
            if limit < counts.len() {
                limit
            } else {
                counts.len() as int
            },
        );
    let k = if limit < counts.len() {
        limit
    } else {
        counts.len() as int
    };
    assert(top.len() == k);
    assert forall|i: int, j: int| 0 <= i < j < top.len() implies
        counts[#[trigger] top[i] as int] >= counts[#[trigger] top[j] as int] by {
        assert(top[i] == ord[i] && top[j] == ord[j]);
        assert(outranks(counts, ord[i] as int, ord[j] as int));
    }
    assert forall|i: int, j: int|
        0 <= i < j < top.len() && counts[#[trigger] top[i] as int] == counts[#[trigger] top[j] as int]
            implies top[i] < top[j] by {
        assert(top[i] == ord[i] && top[j] == ord[j]);
        assert(outranks(counts, ord[i] as int, ord[j] as int));
    }
    assert forall|k2: int, out: int|
        #![trigger counts[top[k2] as int], counts[out]]
        0 <= k2 < top.len() && 0 <= out < counts.len() && (forall|i: int|
            0 <= i < top.len() ==> (#[trigger] top[i]) != out) implies counts[out]
            <= counts[top[k2] as int] by {
        lemma_top_selection_complete(counts, top, limit, k2, out);
    }
}

/// The reported top channels are the largest `min(10, K)` of the `K`
/// tallied community channels, descending, stable on ties.
pub proof fn lemma_top_channels_law(chs: Seq<ChannelTally>, r: Seq<TopChannel>)
    requires
        is_top_channels(chs, r),
    ensures
        r.len() == if chs.len() < 10 {
            chs.len() as int
        } else {
            10int
        },
        forall|i: int, j: int|
            0 <= i < j < r.len() ==> (#[trigger] r[i]).message_count >= (#[trigger] r[j]).message_count,
{
    let pos = choose|pos: Seq<usize>|
        #[trigger] is_top_selection(channel_counts(chs), pos, 10) && crate::pipeline::matches_channels(
            chs,
            pos,
            r,
        );
    lemma_top_selection_law(channel_counts(chs), pos, 10);
    assert forall|i: int, j: int| 0 <= i < j < r.len() implies (#[trigger] r[i]).message_count >= (
    #[trigger] r[j]).message_count by {
        assert(r[i].message_count == channel_counts(chs)[pos[i] as int]);
        assert(r[j].message_count == channel_counts(chs)[pos[j] as int]);
    }
}

/// The reported message total is the exact sum of the per-channel counts
/// of both channel classes whenever that sum fits the machine word.
pub proof fn lemma_message_count_exact(cc: Seq<usize>, dc: Seq<usize>)
    requires
        int_sum(cc) + int_sum(dc) <= usize::MAX,
    ensures
        sat_fold(sat_fold(0, cc), dc) == int_sum(cc) + int_sum(dc),
{
    lemma_sat_fold_sum(0, cc);
    lemma_sat_fold_sum(sat_fold(0, cc), dc);
}

/// The histogram a run produces has exactly 24 buckets, and their sum
/// never exceeds the number of folded messages with a parseable
/// timestamp.
pub proof fn lemma_histogram_law(msgs: Seq<ParsedMessage>)
    ensures
        fold_hist(zeros24(), msgs).len() == 24,
        sum_buckets(fold_hist(zeros24(), msgs)) <= count_parseable(msgs),
{
    lemma_sum_zeros(zeros24());
    lemma_fold_hist_sum(zeros24(), msgs);
}

/// The histogram of the snapshot is explained by some run whose
/// parseable-timestamp count bounds the bucket sum.
pub open spec fn histogram_bounded(d: ExtractedData) -> bool {
    exists|msgs: Seq<ParsedMessage>|
        d.hours_values@ == fold_hist(zeros24(), msgs) && sum_buckets(d.hours_values@)
            <= count_parseable(msgs)
}

/// Every snapshot a run produces has a bounded histogram.
pub proof fn lemma_snapshot_histogram(d: ExtractedData)
    requires
        channel_aggregates(d),
    ensures
        d.hours_values@.len() == 24,
        histogram_bounded(d),
{
    let (wc, wd, wm) = choose|wc: Seq<ChannelTally>, wd: Seq<DmTally>, wm: Seq<ParsedMessage>|
        aggregates_witness(d, wc, wd, wm);
    lemma_histogram_law(wm);
    assert(d.hours_values@ == fold_hist(zeros24(), wm) && sum_buckets(d.hours_values@)
        <= count_parseable(wm));
}

/// The reported message total of a snapshot equals the exact sum of the
/// per-channel message counts of both channel classes whenever that sum
/// fits the machine word.
pub proof fn lemma_snapshot_message_count(
    d: ExtractedData,
    chs: Seq<ChannelTally>,
    dms: Seq<DmTally>,
    msgs: Seq<ParsedMessage>,
)
    requires
        aggregates_witness(d, chs, dms, msgs),
        int_sum(channel_counts(chs)) + int_sum(dm_counts(dms)) <= usize::MAX,
    ensures
        d.message_count as int == int_sum(channel_counts(chs)) + int_sum(dm_counts(dms)),
{
    lemma_message_count_exact(channel_counts(chs), dm_counts(dms));
}

} // verus!
