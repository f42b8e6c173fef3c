use vstd::prelude::*;

use crate::classify::{classify, has_jack};
use crate::measure::total_active;
use crate::notes::NoteModel;
use crate::pattern::{Pattern, is_measure_label};
use crate::pipeline::{chart_denominator, chart_measures, chart_scores};
use crate::segment::{TimingSegment, group, lemma_group, note_total};
use crate::transform::{HitEvent, extract, lemma_extract_ordered};

verus! {

/// Every measure counts exactly the presses of its notes: its `npm` is the
/// sum of the active columns of the notes it holds.
pub proof fn lemma_npm_counts_presses(ns: Seq<NoteModel>, segs: Seq<TimingSegment>)
    ensures
        forall|i: int|
            0 <= i < group(ns, segs).len() ==> #[trigger] group(ns, segs)[i].npm == total_active(
                group(ns, segs)[i].notes,
            ),
{
    lemma_group(ns, segs);
    assert forall|i: int| 0 <= i < group(ns, segs).len() implies #[trigger] group(ns, segs)[i].npm
        == total_active(group(ns, segs)[i].notes) by {
        assert(group(ns, segs)[i].wf());
    }
}

/// The measures of a chart hold, between them, every extracted note once:
/// their note counts add up to the number of notes, which have pairwise
/// distinct times.
pub proof fn lemma_measures_hold_every_note(
    events: Seq<HitEvent>,
    key_count: int,
    segs: Seq<TimingSegment>,
)
    ensures
        note_total(group(extract(events, key_count), segs)) == extract(events, key_count).len(),
        forall|i: int, j: int|
            0 <= i < j < extract(events, key_count).len() ==> extract(events, key_count)[i].timestamp
                != extract(events, key_count)[j].timestamp,
{
    lemma_extract_ordered(events, key_count);
    lemma_group(extract(events, key_count), segs);
}

/// The score table is a function of the chart alone: two tables that meet
/// the pipeline's contract on the same input are identical, entry for entry
/// and in the same order.
pub proof fn lemma_scores_reproducible(
    events: Seq<HitEvent>,
    key_count: int,
    segs: Seq<TimingSegment>,
    first: Seq<(Pattern, int)>,
    first_den: int,
    second: Seq<(Pattern, int)>,
    second_den: int,
)
    requires
        first == chart_scores(events, key_count, segs),
        first_den == chart_denominator(events, key_count, segs),
        second == chart_scores(events, key_count, segs),
        second_den == chart_denominator(events, key_count, segs),
    ensures
        first == second,
        first_den == second_den,
{
}

/// A measure in which two adjacent notes share a column is a jack measure,
/// whatever other tags its notes carry.
pub proof fn lemma_jack_priority(ns: Seq<NoteModel>)
    requires
        has_jack(ns),
    ensures
        classify(ns) matches Pattern::Jack(_),
{
}

/// Every label a measure receives is one of the five categories with a
/// sub-style of that category; the rollup tag `All` is never assigned.
pub proof fn lemma_labels_closed(ns: Seq<NoteModel>)
    ensures
        is_measure_label(classify(ns)),
{
}

/// After the pipeline every measure of a chart carries a measure label.
pub proof fn lemma_chart_labels_closed(events: Seq<HitEvent>, key_count: int, segs: Seq<TimingSegment>)
    ensures
        forall|i: int|
            0 <= i < chart_measures(events, key_count, segs).len() ==> is_measure_label(
                #[trigger] chart_measures(events, key_count, segs)[i].pattern,
            ),
{
    assert forall|i: int| 0 <= i < chart_measures(events, key_count, segs).len() implies is_measure_label(
        #[trigger] chart_measures(events, key_count, segs)[i].pattern,
    ) by {
        let ms = group(extract(events, key_count), segs);
        lemma_labels_closed(ms[i].notes);
    }
}

} // verus!
