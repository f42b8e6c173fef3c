use rosu_pattern_detector::{
    analyze_patterns, get_pattern_weight, group_notes_by_measures, max_by_secondary_type,
    max_values, ordered_entries, sum_by_secondary_type, transformers, ChartError, CommonMeasure,
    GameMode, HandstreamPattern, HitEvent, HitKind, JackPattern, JumpstreamPattern, ManiaMeasure,
    NotesStruct, NpmAverage, Pattern, PatternsValues, SinglestreamPattern, TimingSegment,
};

fn circle(start_time: i32, x: i32) -> HitEvent {
    HitEvent { start_time, x, kind: HitKind::Circle }
}

fn bare_measure(npm: u64) -> ManiaMeasure {
    ManiaMeasure {
        measure: CommonMeasure { start_time: 0, npm },
        notes: Vec::new(),
        pattern: Pattern::Unclassified,
        value: 0,
    }
}

fn table(entries: Vec<(Pattern, u128)>) -> PatternsValues {
    let mut t = PatternsValues::new(10);
    for (p, v) in entries {
        t.add_pattern(p, v);
    }
    t
}

fn chart() -> Vec<HitEvent> {
    vec![
        circle(0, 64),
        circle(100, 64),
        circle(1000, 64),
        circle(1100, 192),
        circle(1200, 64),
        circle(1300, 192),
        circle(2000, 64),
        circle(2000, 192),
        circle(2100, 320),
        circle(2100, 448),
    ]
}

fn segments() -> Vec<TimingSegment> {
    vec![TimingSegment { time: 0, beat_num: 1000, beat_den: 1 }]
}

#[test]
fn density_weight_is_clamped_at_five() {
    let w = bare_measure(1000).get_weight(&NpmAverage { total: 10, measures: 1 });
    assert_eq!(w.num as f64 / w.den as f64, 5.0);
    assert_eq!((w.num, w.den), (50, 10));
}

#[test]
fn density_weight_edges() {
    let avg = NpmAverage { total: 12, measures: 3 };
    let w = bare_measure(6).get_weight(&avg);
    assert_eq!(w.num as f64 / w.den as f64, 1.5);
    let zero = bare_measure(0).get_weight(&avg);
    assert_eq!(zero.num, 0);
    let flat = bare_measure(3).get_weight(&NpmAverage { total: 0, measures: 0 });
    assert_eq!((flat.num, flat.den), (1, 1));
}

#[test]
fn pattern_weights_in_tenths() {
    assert_eq!(get_pattern_weight(&Pattern::Jack(JackPattern::DenseChordjack)), 8);
    assert_eq!(get_pattern_weight(&Pattern::Jack(JackPattern::Speedjack)), 9);
    assert_eq!(get_pattern_weight(&Pattern::Jack(JackPattern::ChordStream)), 11);
    assert_eq!(get_pattern_weight(&Pattern::Jumpstream(JumpstreamPattern::JT)), 7);
    assert_eq!(get_pattern_weight(&Pattern::Handstream(HandstreamPattern::DenseHs)), 8);
    assert_eq!(get_pattern_weight(&Pattern::Singlestream(SinglestreamPattern::Singlestream)), 11);
    assert_eq!(get_pattern_weight(&Pattern::Unclassified), 0);
}

#[test]
fn measure_value_is_density_times_pattern_weight() {
    let mut m = bare_measure(4);
    m.pattern = Pattern::Jack(JackPattern::Speedjack);
    let v = m.get_pattern_weight_modifier(&NpmAverage { total: 8, measures: 4 });
    assert_eq!(v.num as f64 / v.den as f64, 2.0 * 0.9);
}

#[test]
fn full_pipeline_scores() {
    let r = transformers(GameMode::Mania, 4, chart(), segments()).unwrap();
    assert_eq!(r.denominator, 100);
    let mut entries = r.entries.clone();
    entries.sort_by_key(|e| e.1);
    assert_eq!(
        entries,
        vec![
            (Pattern::Jack(JackPattern::Speedjack), 54),
            (Pattern::Jumpstream(JumpstreamPattern::JT), 84),
            (Pattern::Singlestream(SinglestreamPattern::Singlestream), 132),
        ]
    );
}

#[test]
fn pipeline_is_reproducible() {
    let a = transformers(GameMode::Mania, 4, chart(), segments()).unwrap();
    let b = transformers(GameMode::Mania, 4, chart(), segments()).unwrap();
    assert_eq!(a.denominator, b.denominator);
    assert_eq!(a.entries, b.entries);
}

#[test]
fn other_modes_are_refused() {
    let r = transformers(GameMode::Osu, 4, chart(), segments());
    assert!(matches!(r, Err(ChartError::UnsupportedMode)));
}

#[test]
fn pipeline_needs_a_timing_segment() {
    let r = transformers(GameMode::Mania, 4, chart(), Vec::new());
    assert!(matches!(r, Err(ChartError::EmptyTimingSegments)));
}

#[test]
fn unsupported_key_count_scores_nothing() {
    let r = transformers(GameMode::Mania, 6, chart(), segments()).unwrap();
    assert!(r.entries.is_empty());
}

#[test]
fn analysis_labels_every_measure_with_a_concrete_sub_style() {
    let notes = vec![
        NotesStruct::new(0, vec![true, false, false, false]),
        NotesStruct::new(100, vec![true, true, false, false]),
        NotesStruct::new(1000, vec![true, true, true, true]),
        NotesStruct::new(2000, vec![false, true, false, false]),
    ];
    let mut h = group_notes_by_measures(notes, segments()).unwrap();
    analyze_patterns(&mut h);
    for m in &h.0 {
        let all = m.pattern.to_all();
        assert!(m.pattern == Pattern::Unclassified || m.pattern != all);
    }
    assert_eq!(h.0[0].pattern, Pattern::Jack(JackPattern::Speedjack));
    assert_eq!(h.0[1].pattern, Pattern::Unclassified);
    assert_eq!(h.get_npm(), NpmAverage { total: 8, measures: 3 });
}

#[test]
fn max_values_keeps_the_top_tier() {
    let t = table(vec![
        (Pattern::Jack(JackPattern::Speedjack), 40),
        (Pattern::Jumpstream(JumpstreamPattern::JS), 100),
        (Pattern::Handstream(HandstreamPattern::LightHs), 50),
        (Pattern::Singlestream(SinglestreamPattern::Singlestream), 49),
    ]);
    let top = max_values(&t);
    assert_eq!(
        top.entries,
        vec![
            (Pattern::Jumpstream(JumpstreamPattern::JS), 100),
            (Pattern::Handstream(HandstreamPattern::LightHs), 50),
        ]
    );
    assert_eq!(top.denominator, 10);
}

#[test]
fn max_values_of_a_non_empty_table_is_non_empty() {
    let t = table(vec![(Pattern::Jack(JackPattern::Chordjack), 0)]);
    assert_eq!(max_values(&t).entries.len(), 1);
    assert!(max_values(&PatternsValues::new(10)).entries.is_empty());
}

#[test]
fn add_pattern_sums_equal_keys() {
    let t = table(vec![
        (Pattern::Jack(JackPattern::Chordjack), 3),
        (Pattern::Jumpstream(JumpstreamPattern::JS), 4),
        (Pattern::Jack(JackPattern::Chordjack), 5),
    ]);
    assert_eq!(
        t.entries,
        vec![(Pattern::Jack(JackPattern::Chordjack), 8), (Pattern::Jumpstream(JumpstreamPattern::JS), 4)]
    );
}

#[test]
fn rollup_sums_per_category() {
    let t = table(vec![
        (Pattern::Jack(JackPattern::Chordjack), 30),
        (Pattern::Jumpstream(JumpstreamPattern::JS), 35),
        (Pattern::Jack(JackPattern::Speedjack), 20),
        (Pattern::Singlestream(SinglestreamPattern::Singlestream), 10),
    ]);
    let sums = sum_by_secondary_type(&t);
    assert_eq!(
        sums.entries,
        vec![
            (Pattern::Jack(JackPattern::All), 50),
            (Pattern::Jumpstream(JumpstreamPattern::All), 35),
            (Pattern::Singlestream(SinglestreamPattern::All), 10),
        ]
    );
    let top = max_by_secondary_type(&t);
    assert_eq!(
        top.entries,
        vec![(Pattern::Jack(JackPattern::All), 50), (Pattern::Jumpstream(JumpstreamPattern::All), 35)]
    );
}

#[test]
fn ordered_entries_sorts_descending() {
    let t = table(vec![
        (Pattern::Jack(JackPattern::Chordjack), 1),
        (Pattern::Jumpstream(JumpstreamPattern::JS), 7),
        (Pattern::Handstream(HandstreamPattern::HS), 3),
    ]);
    let values: Vec<u128> = ordered_entries(&t).entries.iter().map(|e| e.1).collect();
    assert_eq!(values, vec![7, 3, 1]);
}
