use vstd::prelude::*;

use crate::detector::{
    MAX_CHART_PRESSES, analyze_patterns, analyzed, measure_scores, score_den, total_npm,
};
use crate::measure::{MeasureModel, notes_model, total_active};
use crate::notes::{NoteModel, lemma_count_active_bound};
use crate::pattern::Pattern;
use crate::score::{PatternsValues, accumulate};
use crate::segment::{
    ChartError, TimingSegment, group, group_notes_by_measures, segments_wf,
};
use crate::transform::{
    HitEvent, extract, lemma_extract_ordered, transform_hit_object_to_mania_notes,
};

verus! {

/// The game mode a chart is written for.
#[derive(Debug, Clone, Copy, PartialEq, Eq, Structural)]
pub enum GameMode {
    Osu,
    Taiko,
    Catch,
    Mania,
}

/// The largest number of hit events that the score arithmetic is proved for:
/// seven columns each, their presses stay within `MAX_CHART_PRESSES`.
pub const MAX_HIT_EVENTS: usize = 613566756;

/// Every measure after the analysis pass.
pub open spec fn analyze_all(ms: Seq<MeasureModel>) -> Seq<MeasureModel> {
    Seq::new(ms.len(), |i: int| analyzed(ms[i], total_npm(ms), ms.len() as int))
}

/// The measures of a chart, labelled and weighed.
pub open spec fn chart_measures(
    events: Seq<HitEvent>,
    key_count: int,
    segs: Seq<TimingSegment>,
) -> Seq<MeasureModel> {
    analyze_all(group(extract(events, key_count), segs))
}

/// The score table of a chart, entries in order of first appearance.
pub open spec fn chart_scores(
    events: Seq<HitEvent>,
    key_count: int,
    segs: Seq<TimingSegment>,
) -> Seq<(Pattern, int)> {
    accumulate(measure_scores(chart_measures(events, key_count, segs)))
}

/// The denominator that all scores of a chart share.
pub open spec fn chart_denominator(
    events: Seq<HitEvent>,
    key_count: int,
    segs: Seq<TimingSegment>,
) -> int {
    let ms = group(extract(events, key_count), segs);
    score_den(total_npm(ms), ms.len() as int)
}

/// Notes at most `width` columns wide press at most `width` columns each.
pub proof fn lemma_total_active_bound(ns: Seq<NoteModel>, width: int)
    requires
        forall|i: int| 0 <= i < ns.len() ==> (#[trigger] ns[i]).cols.len() <= width,
    ensures
        total_active(ns) <= width * ns.len(),
    decreases ns.len(),
{
    if ns.len() > 0 {
        lemma_total_active_bound(ns.drop_last(), width);
        lemma_count_active_bound(ns.last().cols);
        assert(width * (ns.len() - 1) + width == width * ns.len()) by (nonlinear_arith);
    }
}

/// Runs the whole analysis on a chart: notes from events, measures from
/// notes, then labels, weights and the score table.
pub fn transformers(
    mode: GameMode,
    num_keys: i32,
    hit_objects: Vec<HitEvent>,
    timing_points: Vec<TimingSegment>,
) -> (r: Result<PatternsValues, ChartError>)
    requires
        segments_wf(timing_points@),
        hit_objects@.len() <= MAX_HIT_EVENTS,
    ensures
        mode != GameMode::Mania <==> r == Err::<PatternsValues, ChartError>(ChartError::UnsupportedMode),
        mode == GameMode::Mania && timing_points@.len() == 0 <==> r == Err::<
            PatternsValues,
            ChartError,
        >(ChartError::EmptyTimingSegments),
        r is Ok ==> r->Ok_0.wf() && r->Ok_0.model() == chart_scores(
            hit_objects@,
            num_keys as int,
            timing_points@,
        ) && r->Ok_0.denominator == chart_denominator(
            hit_objects@,
            num_keys as int,
            timing_points@,
        ),
{
    if mode != GameMode::Mania {
        return Err(ChartError::UnsupportedMode);
    }
    let ghost events = hit_objects@;
    let ghost kc = num_keys as int;
    let notes = transform_hit_object_to_mania_notes(hit_objects, num_keys);
    proof {
        let ns = notes_model(notes@);
        lemma_extract_ordered(events, kc);
        if kc == 4 || kc == 7 {
            lemma_total_active_bound(ns, 7);
        } else {
            assert(ns.len() == 0);
        }
        assert(7 * ns.len() <= MAX_CHART_PRESSES);
    }
    let grouped = group_notes_by_measures(notes, timing_points);
    match grouped {
        Err(e) => Err(e),
        Ok(measures) => {
            let mut measures = measures;
            let ghost before = measures.model();
            analyze_patterns(&mut measures);
            proof {
                assert(measures.model() =~= analyze_all(before));
            }
            let scores = measures.get_patterns_values();
            proof {
                assert(total_npm(measures.model()) == total_npm(before)) by {
                    crate::detector::lemma_total_npm_same(measures.model(), before);
                }
            }
            Ok(scores)
        },
    }
}

} // verus!
