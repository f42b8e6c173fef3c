//! Pattern detection for column-based ("mania") rhythm-game charts.
//!
//! The pipeline turns hit events into notes, groups the notes into measures,
//! labels every measure with a playing technique and weighs it by its note
//! density, then sums the weights per technique.  All arithmetic is exact:
//! measure lengths are fractions of milliseconds and scores are fractions
//! over a denominator that the whole chart shares.
mod notes;
mod text;
mod pattern;
mod measure;
mod classify;
mod score;
mod detector;
mod transform;
mod segment;
mod pipeline;
mod utils;
mod laws;

pub use notes::{BasePattern, NoteModel, NotesStruct};
pub use pattern::{
    get_pattern_weight, HandstreamPattern, JackPattern, JumpstreamPattern, Pattern,
    SecondaryPattern, SinglestreamPattern,
};
pub use measure::{CommonMeasure, ManiaMeasure, MeasureModel};
pub use score::{PatternsValues, Ratio};
pub use detector::{analyze_patterns, HitObjects, NpmAverage, MAX_CHART_PRESSES, MAX_MEASURE_VALUE};
pub use transform::{transform_hit_object_to_mania_notes, HitEvent, HitKind};
pub use segment::{group_notes_by_measures, ChartError, TimingSegment};
pub use pipeline::{transformers, GameMode, MAX_HIT_EVENTS};
pub use utils::{max_by_secondary_type, max_values, ordered_entries, sum_by_secondary_type};
pub use laws::{
    lemma_chart_labels_closed, lemma_jack_priority, lemma_labels_closed,
    lemma_measures_hold_every_note, lemma_npm_counts_presses, lemma_scores_reproducible,
};
