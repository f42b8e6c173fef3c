use rosu_pattern_detector::{
    group_notes_by_measures, transform_hit_object_to_mania_notes, BasePattern, HitEvent, HitKind,
    NotesStruct, TimingSegment,
};

fn circle(start_time: i32, x: i32) -> HitEvent {
    HitEvent { start_time, x, kind: HitKind::Circle }
}

#[test]
fn lone_event_gives_one_single_note() {
    let notes = transform_hit_object_to_mania_notes(vec![circle(100, 64)], 4);
    assert_eq!(notes.len(), 1);
    assert_eq!(notes[0].timestamp, 100);
    assert_eq!(notes[0].notes, vec![true, false, false, false]);
    assert_eq!(notes[0].get_pattern(), BasePattern::Single);
}

#[test]
fn simultaneous_events_merge_into_a_jump() {
    let notes = transform_hit_object_to_mania_notes(vec![circle(0, 64), circle(0, 192)], 4);
    assert_eq!(notes.len(), 1);
    assert_eq!(notes[0].notes, vec![true, true, false, false]);
    assert_eq!(notes[0].get_pattern(), BasePattern::Jump);
}

#[test]
fn unsupported_key_count_gives_no_notes() {
    let notes = transform_hit_object_to_mania_notes(vec![circle(0, 64), circle(10, 192)], 5);
    assert!(notes.is_empty());
}

#[test]
fn other_kinds_and_positions_are_dropped() {
    let events = vec![
        HitEvent { start_time: 0, x: 64, kind: HitKind::Spinner },
        HitEvent { start_time: 5, x: 64, kind: HitKind::Hold },
        circle(10, 65),
        HitEvent { start_time: 20, x: 448, kind: HitKind::Slider },
    ];
    let notes = transform_hit_object_to_mania_notes(events, 4);
    assert_eq!(notes.len(), 1);
    assert_eq!(notes[0].timestamp, 20);
    assert_eq!(notes[0].notes, vec![false, false, false, true]);
}

#[test]
fn seven_key_columns_and_time_order() {
    let events = vec![circle(300, 475), circle(100, 36), circle(300, 256), circle(200, 109)];
    let notes = transform_hit_object_to_mania_notes(events, 7);
    let times: Vec<i32> = notes.iter().map(|n| n.timestamp).collect();
    assert_eq!(times, vec![100, 200, 300]);
    assert_eq!(notes[2].notes, vec![false, false, false, true, false, false, true]);
    assert_eq!(notes[0].notes.len(), 7);
}

#[test]
fn tags_follow_the_number_of_columns() {
    let note = |cols: Vec<bool>| NotesStruct::new(0, cols);
    assert_eq!(note(vec![false; 4]).get_pattern(), BasePattern::Empty);
    assert_eq!(note(vec![true, true, true, false]).get_pattern(), BasePattern::Hand);
    assert_eq!(note(vec![true; 4]).get_pattern(), BasePattern::Quad);
    assert_eq!(note(vec![true, true, true, true, true, false, false]).get_pattern(), BasePattern::Chord);
}

#[test]
fn display_string_shows_time_and_columns() {
    assert_eq!(NotesStruct::new(120, vec![true, false, false, true]).to_display_string(), "120: OXXO");
    assert_eq!(NotesStruct::new(-5, vec![false, true]).to_display_string(), "-5: XO");
}

#[test]
fn measure_start_uses_fractional_beat_length() {
    let seg = TimingSegment { time: 0, beat_num: 1000, beat_den: 3 };
    let notes = vec![NotesStruct::new(-100, vec![true, false, false, false]), NotesStruct::new(700, vec![false, true, false, false])];
    let measures = group_notes_by_measures(notes, vec![seg]).unwrap();
    let starts: Vec<i64> = measures.0.iter().map(|m| m.measure.start_time).collect();
    assert_eq!(starts, vec![-333, 666]);
}

#[test]
fn latest_segment_at_or_before_the_note_governs_it() {
    let segs = vec![
        TimingSegment { time: 0, beat_num: 1000, beat_den: 1 },
        TimingSegment { time: 1500, beat_num: 500, beat_den: 1 },
    ];
    let notes = vec![
        NotesStruct::new(1400, vec![true, false, false, false]),
        NotesStruct::new(1600, vec![true, true, false, false]),
        NotesStruct::new(1700, vec![false, false, true, false]),
    ];
    let measures = group_notes_by_measures(notes, segs).unwrap();
    let starts: Vec<i64> = measures.0.iter().map(|m| m.measure.start_time).collect();
    assert_eq!(starts, vec![1000, 1500]);
    assert_eq!(measures.0[1].notes.len(), 2);
    assert_eq!(measures.0[1].measure.npm, 3);
}

#[test]
fn npm_is_the_sum_of_active_columns() {
    let seg = TimingSegment { time: 0, beat_num: 1000, beat_den: 1 };
    let notes = vec![
        NotesStruct::new(0, vec![true, true, false, false]),
        NotesStruct::new(250, vec![true, true, true, false]),
        NotesStruct::new(1200, vec![false, false, false, true]),
    ];
    let measures = group_notes_by_measures(notes, vec![seg]).unwrap();
    for m in &measures.0 {
        let presses: usize = m.notes.iter().map(|n| n.notes.iter().filter(|&&b| b).count()).sum();
        assert_eq!(m.measure.npm as usize, presses);
        assert_eq!(m.t_notes(), m.measure.npm);
    }
    assert_eq!(measures.0[0].measure.npm, 5);
}

#[test]
fn note_counts_add_up_to_the_extracted_notes() {
    let events = vec![circle(0, 64), circle(0, 192), circle(300, 320), circle(1100, 448), circle(1900, 64), circle(1900, 448)];
    let notes = transform_hit_object_to_mania_notes(events, 4);
    let n = notes.len();
    assert_eq!(n, 4);
    let measures = group_notes_by_measures(notes, vec![TimingSegment { time: 0, beat_num: 1000, beat_den: 1 }]).unwrap();
    let held: usize = measures.0.iter().map(|m| m.notes.len()).sum();
    assert_eq!(held, n);
    assert_eq!(measures.0.len(), 2);
}

#[test]
fn no_timing_segment_is_an_error() {
    let notes = vec![NotesStruct::new(0, vec![true, false, false, false])];
    let r = group_notes_by_measures(notes, Vec::new());
    assert!(matches!(r, Err(rosu_pattern_detector::ChartError::EmptyTimingSegments)));
}
